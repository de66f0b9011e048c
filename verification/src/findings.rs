//! The results and findings screens: how each statement of a run is shown,
//! which failed assertions and errors make up a finding, and the counters
//! and status texts of both screens.
use vstd::prelude::*;
use crate::json::{text_or, bool_of, field, get_bool, get_str, get_u64, str_of, u64_of, JsonValue};
use crate::model::{contains_string, strs};
use crate::text::{chars_of, dec, dec_int, extend_chars, extend_str, fmt_i64, fmt_u64, fmt_usize, str_eq, string_of};

verus! {

// ───────────────────────────── one statement of a run ─────────────────────────────

/// How one statement of a run is shown: row class, icon, label and values.
pub struct StatementView {
    pub class: &'static str,
    pub icon: &'static str,
    pub label: String,
    pub values: String,
}


/// The unsigned member `key`, else 0.
pub open spec fn count_or_zero(v: JsonValue, key: Seq<char>) -> nat {
    match u64_of(field(v, key)) {
        Some(n) => n as nat,
        None => 0,
    }
}

/// The statement's kind, or empty.
pub open spec fn kind_of(v: JsonValue) -> Seq<char> {
    text_or(v, "kind"@, Seq::empty())
}

/// `lhs op rhs` of an assertion (`?`, `=` and `?` when missing).
pub open spec fn assert_values(v: JsonValue) -> Seq<char> {
    text_or(v, "lhs_value"@, "?"@) + " "@ + text_or(v, "op"@, "="@) + " "@ + text_or(v, "rhs_value"@, "?"@)
}

/// The row shown for a statement: an assertion passed or failed with its
/// label (`Assert #n` without one) and values; a sample with its method and
/// how many items it selected of how many; a value; anything else as an
/// error with its message.
pub open spec fn statement_shown(v: JsonValue) -> (Seq<char>, Seq<char>, Seq<char>, Seq<char>) {
    let k = kind_of(v);
    if k == "assert"@ {
        let passed = bool_of(field(v, "passed"@)) == Some(true);
        (
            if passed { "s5-stmt-row s5-stmt-pass"@ } else { "s5-stmt-row s5-stmt-fail"@ },
            if passed { "\u{2713}"@ } else { "\u{2717}"@ },
            text_or(v, "label"@, "Assert #"@ + dec(count_or_zero(v, "index"@))),
            assert_values(v),
        )
    } else if k == "sample"@ {
        (
            "s5-stmt-row s5-stmt-sample"@,
            "\u{25ce}"@,
            text_or(v, "method"@, "Sample"@),
            dec(count_or_zero(v, "selected_count"@)) + " selected from "@ + dec(count_or_zero(v, "population_size"@))
                + " items"@,
        )
    } else if k == "value"@ {
        ("s5-stmt-row"@, "="@, "Value"@, text_or(v, "value"@, Seq::empty()))
    } else {
        ("s5-stmt-row s5-stmt-error"@, "\u{26a0}"@, "Error"@, text_or(v, "error"@, "Unknown error"@))
    }
}

/// What a statement row shows is the statement's own data: a sample is
/// labelled with its method when it names one (`Sample` only when it does
/// not) and shows how many items it selected of how many; an assertion is
/// labelled with its label when it has one, and shows as passed exactly
/// when its `passed` member is `true`.
pub proof fn law_rows_show_the_statement(v: JsonValue)
    ensures
        str_of(field(v, "kind"@)) == Some("sample"@) ==> statement_shown(v).2 == (match str_of(field(v, "method"@)) {
            Some(m) => m,
            None => "Sample"@,
        }) && statement_shown(v).3 == dec(count_or_zero(v, "selected_count"@)) + " selected from "@ + dec(
            count_or_zero(v, "population_size"@),
        ) + " items"@,
        str_of(field(v, "kind"@)) == Some("assert"@) ==> (str_of(field(v, "label"@)) matches Some(l)
            ==> statement_shown(v).2 == l) && (statement_shown(v).0 == "s5-stmt-row s5-stmt-pass"@ <==> bool_of(
            field(v, "passed"@),
        ) == Some(true)),
{
    reveal_strlit("sample");
    reveal_strlit("assert");
    reveal_strlit("s5-stmt-row s5-stmt-pass");
    reveal_strlit("s5-stmt-row s5-stmt-fail");
    assert("sample"@ != "assert"@) by {
        assert("sample"@[0] != "assert"@[0]);
    }
    assert("s5-stmt-row s5-stmt-pass"@ != "s5-stmt-row s5-stmt-fail"@) by {
        assert("s5-stmt-row s5-stmt-pass"@[20] != "s5-stmt-row s5-stmt-fail"@[20]);
    }
}

fn text_or_exec(v: &JsonValue, key: &str, default: &str) -> (r: Vec<char>)
    ensures
        r@ == text_or(*v, key@, default@),
{
    match get_str(v, key) {
        Some(s) => chars_of(s.as_str()),
        None => chars_of(default),
    }
}

fn count_or_zero_exec(v: &JsonValue, key: &str) -> (n: u64)
    ensures
        n as nat == count_or_zero(*v, key@),
{
    match get_u64(v, key) {
        Some(n) => n,
        None => 0,
    }
}

/// How a statement of a run is shown (see `statement_shown`).
pub fn statement_view(v: &JsonValue) -> (r: StatementView)
    ensures
        (r.class@, r.icon@, r.label@, r.values@) == statement_shown(*v),
{
    proof {
        reveal_strlit("");
        assert(""@ =~= Seq::<char>::empty());
    }
    let k = text_or_exec(v, "kind", "");
    let ks = string_of(k.as_slice());
    if str_eq(ks.as_str(), "assert") {
        let passed = match get_bool(v, "passed") {
            Some(b) => b,
            None => false,
        };
        let label = match get_str(v, "label") {
            Some(s) => s.clone(),
            None => {
                let mut l = chars_of("Assert #");
                let n = fmt_u64(count_or_zero_exec(v, "index"));
                extend_chars(&mut l, n.as_slice());
                string_of(l.as_slice())
            },
        };
        let mut vals = text_or_exec(v, "lhs_value", "?");
        extend_str(&mut vals, " ");
        let op = text_or_exec(v, "op", "=");
        extend_chars(&mut vals, op.as_slice());
        extend_str(&mut vals, " ");
        let rhs = text_or_exec(v, "rhs_value", "?");
        extend_chars(&mut vals, rhs.as_slice());
        StatementView {
            class: if passed { "s5-stmt-row s5-stmt-pass" } else { "s5-stmt-row s5-stmt-fail" },
            icon: if passed { "\u{2713}" } else { "\u{2717}" },
            label,
            values: string_of(vals.as_slice()),
        }
    } else if str_eq(ks.as_str(), "sample") {
        let method = text_or_exec(v, "method", "Sample");
        let mut vals = fmt_u64(count_or_zero_exec(v, "selected_count"));
        extend_str(&mut vals, " selected from ");
        let pop = fmt_u64(count_or_zero_exec(v, "population_size"));
        extend_chars(&mut vals, pop.as_slice());
        extend_str(&mut vals, " items");
        StatementView {
            class: "s5-stmt-row s5-stmt-sample",
            icon: "\u{25ce}",
            label: string_of(method.as_slice()),
            values: string_of(vals.as_slice()),
        }
    } else if str_eq(ks.as_str(), "value") {
        let val = text_or_exec(v, "value", "");
        StatementView {
            class: "s5-stmt-row",
            icon: "=",
            label: string_of(chars_of("Value").as_slice()),
            values: string_of(val.as_slice()),
        }
    } else {
        let e = text_or_exec(v, "error", "Unknown error");
        StatementView {
            class: "s5-stmt-row s5-stmt-error",
            icon: "\u{26a0}",
            label: string_of(chars_of("Error").as_slice()),
            values: string_of(e.as_slice()),
        }
    }
}

// ───────────────────────────── what a finding shows ─────────────────────────────

/// An assertion that explicitly failed.
pub open spec fn failed_assert(v: JsonValue) -> bool {
    kind_of(v) == "assert"@ && bool_of(field(v, "passed"@)) == Some(false)
}

/// The distinct source columns of the failed assertions that name one, in
/// order of first appearance.
pub open spec fn failed_columns_of(rs: Seq<JsonValue>) -> Seq<Seq<char>>
    decreases rs.len(),
{
    if rs.len() == 0 {
        Seq::empty()
    } else {
        let p = failed_columns_of(rs.drop_last());
        let v = rs.last();
        match str_of(field(v, "source_col"@)) {
            Some(c) => if failed_assert(v) && !p.contains(c) {
                p.push(c)
            } else {
                p
            },
            None => p,
        }
    }
}

fn is_failed_assert(v: &JsonValue) -> (b: bool)
    ensures
        b == failed_assert(*v),
{
    proof {
        reveal_strlit("");
        assert(""@ =~= Seq::<char>::empty());
    }
    let k = text_or_exec(v, "kind", "");
    let ks = string_of(k.as_slice());
    str_eq(ks.as_str(), "assert") && match get_bool(v, "passed") {
        Some(b) => !b,
        None => false,
    }
}


/// The columns whose distribution a finding can chart: the source columns
/// of its failed assertions, each once.
pub fn failed_source_columns(rs: &[JsonValue]) -> (r: Vec<String>)
    ensures
        strs(r@) == failed_columns_of(rs@),
{
    let mut r: Vec<String> = Vec::new();
    let mut i: usize = 0;
    assert(strs(r@) =~= Seq::<Seq<char>>::empty());
    while i < rs.len()
        invariant
            i <= rs.len(),
            strs(r@) == failed_columns_of(rs@.take(i as int)),
        decreases rs.len() - i,
    {
        assert(rs@.take(i + 1).drop_last() =~= rs@.take(i as int));
        assert(rs@.take(i + 1).last() == rs@[i as int]);
        match get_str(&rs[i], "source_col") {
            Some(c) => {
                if is_failed_assert(&rs[i]) && !contains_string(&r, c) {
                    let ghost p = strs(r@);
                    r.push(c.clone());
                    assert(strs(r@) =~= p.push(c@));
                }
            },
            None => {},
        }
        i = i + 1;
    }
    assert(rs@.take(rs.len() as int) =~= rs@);
    r
}

/// One line of a finding: a failed assertion with its label and what it
/// found, or an error message.
pub enum FindingLine {
    Assert { label: String, actual: String },
    Error(String),
}

/// The lines of a finding: each failed assertion (`actual lhs op rhs`) and
/// each error, in order.
pub open spec fn finding_line_of(v: JsonValue) -> Option<(bool, Seq<char>, Seq<char>)> {
    if failed_assert(v) {
        Some((true, text_or(v, "label"@, "assert"@), "actual "@ + assert_values(v)))
    } else if kind_of(v) == "error"@ {
        Some((false, text_or(v, "error"@, "error"@), Seq::empty()))
    } else {
        None
    }
}

pub open spec fn line_view(l: FindingLine) -> (bool, Seq<char>, Seq<char>) {
    match l {
        FindingLine::Assert { label, actual } => (true, label@, actual@),
        FindingLine::Error(e) => (false, e@, Seq::empty()),
    }
}

/// The lines of a finding for the statements of its run.
pub fn finding_lines(rs: &[JsonValue]) -> (r: Vec<FindingLine>)
    ensures
        r@.map_values(|l: FindingLine| line_view(l)) == crate::script_fix::somes(
            rs@.map_values(|v: JsonValue| finding_line_of(v)),
        ),
{
    let ghost f = |v: JsonValue| finding_line_of(v);
    let ghost es = rs@.map_values(f);
    let ghost lv = |l: FindingLine| line_view(l);
    let mut r: Vec<FindingLine> = Vec::new();
    let mut i: usize = 0;
    assert(es.take(0) =~= Seq::<Option<(bool, Seq<char>, Seq<char>)>>::empty());
    assert(r@.map_values(lv) =~= Seq::<(bool, Seq<char>, Seq<char>)>::empty());
    while i < rs.len()
        invariant
            i <= rs.len(),
            f == (|v: JsonValue| finding_line_of(v)),
            lv == (|l: FindingLine| line_view(l)),
            es == rs@.map_values(f),
            r@.map_values(lv) == crate::script_fix::somes(es.take(i as int)),
        decreases rs.len() - i,
    {
        proof {
            crate::script_fix::lemma_somes_step(es, i as int);
            reveal_strlit("");
            assert(""@ =~= Seq::<char>::empty());
        }
        let v = &rs[i];
        let ghost p = r@.map_values(lv);
        if is_failed_assert(v) {
            let label = text_or_exec(v, "label", "assert");
            let mut actual = chars_of("actual ");
            let lhs = text_or_exec(v, "lhs_value", "?");
            extend_chars(&mut actual, lhs.as_slice());
            extend_str(&mut actual, " ");
            let op = text_or_exec(v, "op", "=");
            extend_chars(&mut actual, op.as_slice());
            extend_str(&mut actual, " ");
            let rhs = text_or_exec(v, "rhs_value", "?");
            extend_chars(&mut actual, rhs.as_slice());
            assert(actual@ =~= "actual "@ + assert_values(*v));
            assert(es[i as int] == finding_line_of(*v));
            r.push(FindingLine::Assert { label: string_of(label.as_slice()), actual: string_of(actual.as_slice()) });
            assert(r@.map_values(lv) =~= p.push(lv(r@[r@.len() - 1])));
        } else {
            let k = text_or_exec(v, "kind", "");
            let ks = string_of(k.as_slice());
            if str_eq(ks.as_str(), "error") {
                let e = text_or_exec(v, "error", "error");
                assert(es[i as int] == finding_line_of(*v));
                r.push(FindingLine::Error(string_of(e.as_slice())));
                assert(r@.map_values(lv) =~= p.push(lv(r@[r@.len() - 1])));
            }
        }
        i = i + 1;
    }
    assert(es.take(rs.len() as int) =~= es);
    r
}

// ───────────────────────────── counters and status texts ─────────────────────────────

/// A result is a finding when some assertion failed or some error occurred.
pub open spec fn is_finding(r: (i64, i64, i64)) -> bool {
    r.1 > 0 || r.2 > 0
}

/// The number of findings and of controls that passed, over (passed,
/// failed, errors) results.
pub open spec fn finding_tally(rs: Seq<(i64, i64, i64)>) -> (nat, nat)
    decreases rs.len(),
{
    if rs.len() == 0 {
        (0, 0)
    } else {
        let p = finding_tally(rs.drop_last());
        let r = rs.last();
        if is_finding(r) {
            (p.0 + 1, p.1)
        } else if r.1 == 0 && r.2 == 0 {
            (p.0, p.1 + 1)
        } else {
            p
        }
    }
}

proof fn lemma_tally_bound(rs: Seq<(i64, i64, i64)>)
    ensures
        finding_tally(rs).0 + finding_tally(rs).1 <= rs.len(),
    decreases rs.len(),
{
    if rs.len() > 0 {
        lemma_tally_bound(rs.drop_last());
    }
}

/// Counts the findings and the controls that passed.
pub fn finding_counts(rs: &[(i64, i64, i64)]) -> (c: (usize, usize))
    ensures
        (c.0 as nat, c.1 as nat) == finding_tally(rs@),
{
    let mut f: usize = 0;
    let mut p: usize = 0;
    let mut i: usize = 0;
    while i < rs.len()
        invariant
            i <= rs.len(),
            (f as nat, p as nat) == finding_tally(rs@.take(i as int)),
        decreases rs.len() - i,
    {
        assert(rs@.take(i + 1).drop_last() =~= rs@.take(i as int));
        proof {
            lemma_tally_bound(rs@.take(i as int));
        }
        let (_, failed, errors) = rs[i];
        if failed > 0 || errors > 0 {
            f = f + 1;
        } else if failed == 0 && errors == 0 {
            p = p + 1;
        }
        i = i + 1;
    }
    assert(rs@.take(rs.len() as int) =~= rs@);
    (f, p)
}

/// Every result counts as a finding or as passed, never as both: the two
/// counters add up to the number of results.
pub proof fn law_findings_and_passes_cover_results(rs: Seq<(i64, i64, i64)>)
    requires
        forall|i: int| 0 <= i < rs.len() ==> (#[trigger] rs[i]).1 >= 0 && rs[i].2 >= 0,
    ensures
        finding_tally(rs).0 + finding_tally(rs).1 == rs.len(),
    decreases rs.len(),
{
    if rs.len() > 0 {
        assert forall|i: int| 0 <= i < rs.drop_last().len() implies (#[trigger] rs.drop_last()[i]).1 >= 0
            && rs.drop_last()[i].2 >= 0 by {
            assert(rs.drop_last()[i] == rs[i]);
        }
        law_findings_and_passes_cover_results(rs.drop_last());
        assert(rs.last() == rs[rs.len() - 1]);
    }
}

/// The status text of the findings screen.
pub fn findings_status(findings: usize, passed: usize) -> (s: String)
    ensures
        s@ == (if findings == 0 && passed == 0 {
            "No results available"@
        } else {
            dec(findings as nat) + " finding(s) \u{b7} "@ + dec(passed as nat) + " control(s) passed"@
        }),
{
    if findings == 0 && passed == 0 {
        return string_of(chars_of("No results available").as_slice());
    }
    let mut v = fmt_usize(findings);
    extend_str(&mut v, " finding(s) \u{b7} ");
    let p = fmt_usize(passed);
    extend_chars(&mut v, p.as_slice());
    extend_str(&mut v, " control(s) passed");
    string_of(v.as_slice())
}

/// The status text of the results screen.
pub fn results_status(scripts: usize, passed: i64, failed: i64) -> (s: String)
    ensures
        s@ == (if scripts == 0 {
            "No results available"@
        } else {
            dec(scripts as nat) + " test scripts \u{b7} "@ + dec_int(passed as int) + " passed \u{b7} "@ + dec_int(
                failed as int,
            ) + " failed"@
        }),
{
    if scripts == 0 {
        return string_of(chars_of("No results available").as_slice());
    }
    let mut v = fmt_usize(scripts);
    extend_str(&mut v, " test scripts \u{b7} ");
    let p = fmt_i64(passed);
    extend_chars(&mut v, p.as_slice());
    extend_str(&mut v, " passed \u{b7} ");
    let f = fmt_i64(failed);
    extend_chars(&mut v, f.as_slice());
    extend_str(&mut v, " failed");
    string_of(v.as_slice())
}

/// The status dot of the results screen: ready only when something passed
/// and nothing failed or errored.
pub fn results_dot(passed: i64, failed: i64, errors: i64) -> (s: &'static str)
    ensures
        s@ == (if failed > 0 || errors > 0 {
            "s4-dot s4-dot--idle"@
        } else if passed > 0 {
            "s4-dot s4-dot--ready"@
        } else {
            "s4-dot s4-dot--idle"@
        }),
{
    if failed > 0 || errors > 0 {
        "s4-dot s4-dot--idle"
    } else if passed > 0 {
        "s4-dot s4-dot--ready"
    } else {
        "s4-dot s4-dot--idle"
    }
}

/// The card of a finding: the colour of its title, the title, the caption
/// and the issue count.
pub open spec fn finding_card_text(label: Seq<char>, control_ref: Seq<char>, r: (i64, i64, i64)) -> (Seq<char>, Seq<char>, Seq<char>, Seq<char>) {
    (
        if r.2 > 0 && r.1 == 0 { "var(--w-text-3)"@ } else { "#e05c5c"@ },
        "FINDING \u{2014} "@ + label,
        "Control "@ + control_ref + " \u{b7} "@ + dec_int(r.1 as int) + " failed \u{b7} "@ + dec_int(r.2 as int)
            + " errors \u{b7} "@ + dec_int(r.0 as int) + " passed"@,
        dec_int(r.1 + r.2) + " issue(s)"@,
    )
}

/// The texts of a finding's card for a script's label, control ref and
/// (passed, failed, errors) counts.
pub fn finding_card(label: &str, control_ref: &str, r: (i64, i64, i64)) -> (c: (&'static str, String, String, String))
    requires
        i64::MIN <= r.1 + r.2 <= i64::MAX,
    ensures
        (c.0@, c.1@, c.2@, c.3@) == finding_card_text(label@, control_ref@, r),
{
    let (passed, failed, errors) = r;
    let color = if errors > 0 && failed == 0 { "var(--w-text-3)" } else { "#e05c5c" };
    let mut title = chars_of("FINDING \u{2014} ");
    extend_str(&mut title, label);
    let mut cap = chars_of("Control ");
    extend_str(&mut cap, control_ref);
    extend_str(&mut cap, " \u{b7} ");
    extend_chars(&mut cap, fmt_i64(failed).as_slice());
    extend_str(&mut cap, " failed \u{b7} ");
    extend_chars(&mut cap, fmt_i64(errors).as_slice());
    extend_str(&mut cap, " errors \u{b7} ");
    extend_chars(&mut cap, fmt_i64(passed).as_slice());
    extend_str(&mut cap, " passed");
    let mut issues = fmt_i64(failed + errors);
    extend_str(&mut issues, " issue(s)");
    (color, string_of(title.as_slice()), string_of(cap.as_slice()), string_of(issues.as_slice()))
}

/// The result of a script: the first with its id.
pub open spec fn result_for(results: Seq<(String, i64, i64, i64)>, id: Seq<char>) -> Option<int> {
    crate::seqs::first_index(results, |r: (String, i64, i64, i64)| r.0@ == id)
}

/// The scripts that have a finding, in order, each with the position of its
/// result.
pub open spec fn failing_pairs(ids: Seq<Seq<char>>, results: Seq<(String, i64, i64, i64)>) -> Seq<(int, int)>
    decreases ids.len(),
{
    if ids.len() == 0 {
        Seq::empty()
    } else {
        let p = failing_pairs(ids.drop_last(), results);
        let i = ids.len() - 1;
        match result_for(results, ids.last()) {
            Some(k) => if results[k].2 > 0 || results[k].3 > 0 {
                p.push((i, k))
            } else {
                p
            },
            None => p,
        }
    }
}

/// The findings of the scripts (given by id) among their results (script
/// id, passed, failed, errors): pairs of script and result positions.
pub fn failing_scripts(ids: &[String], results: &[(String, i64, i64, i64)]) -> (r: Vec<(usize, usize)>)
    ensures
        r@.map_values(|p: (usize, usize)| (p.0 as int, p.1 as int)) == failing_pairs(strs(ids@), results@),
{
    let ghost pv = |p: (usize, usize)| (p.0 as int, p.1 as int);
    let mut r: Vec<(usize, usize)> = Vec::new();
    let mut i: usize = 0;
    assert(strs(ids@).take(0) =~= Seq::<Seq<char>>::empty());
    assert(r@.map_values(pv) =~= Seq::<(int, int)>::empty());
    while i < ids.len()
        invariant
            i <= ids.len(),
            pv == (|p: (usize, usize)| (p.0 as int, p.1 as int)),
            r@.map_values(pv) == failing_pairs(strs(ids@).take(i as int), results@),
        decreases ids.len() - i,
    {
        let ghost ti = strs(ids@).take(i + 1);
        assert(ti.drop_last() =~= strs(ids@).take(i as int));
        assert(ti.last() == ids@[i as int]@);
        let ghost p = |x: (String, i64, i64, i64)| x.0@ == ids@[i as int]@;
        let mut k: usize = 0;
        let mut found: Option<usize> = None;
        while k < results.len() && found.is_none()
            invariant
                k <= results.len(),
                i < ids.len(),
                p == (|x: (String, i64, i64, i64)| x.0@ == ids@[i as int]@),
                found matches Some(f) ==> f < results.len() && crate::seqs::first_index(results@, p) == Some(f as int),
                found is None ==> crate::seqs::first_index(results@, p) == crate::seqs::first_index_from(
                    results@,
                    p,
                    k as int,
                ),
            decreases results.len() - k + (if found is None { 1int } else { 0int }),
        {
            if str_eq(results[k].0.as_str(), ids[i].as_str()) {
                assert(p(results@[k as int]));
                found = Some(k);
            } else {
                k = k + 1;
            }
        }
        let ghost prev = r@.map_values(pv);
        match found {
            Some(f) => {
                if results[f].2 > 0 || results[f].3 > 0 {
                    r.push((i, f));
                    assert(r@.map_values(pv) =~= prev.push((i as int, f as int)));
                }
            },
            None => {},
        }
        i = i + 1;
    }
    assert(strs(ids@).take(ids.len() as int) =~= strs(ids@));
    r
}

} // verus!
