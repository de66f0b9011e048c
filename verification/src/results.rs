//! Reading the results of running a DSL script.
use vstd::prelude::*;
use crate::json::{bool_of, field, field_equals, field_is, get_bool, get_str, get_u64, str_of, take_field, u64_of, JsonValue};
use crate::seqs::{first_index, first_index_from};
use crate::text::{chars_of, dec, extend_str, fmt_u64, fmt_usize, string_of};

verus! {

/// What a run result shows as its actual value: a text, or a JSON value
/// that is shown as JSON.
#[derive(Debug)]
pub enum RunActual {
    Text(String),
    Value(JsonValue),
}

/// The display form of a script run.
#[derive(Debug)]
pub struct RunOutcome {
    pub expr_type: String,
    pub expected: String,
    pub actual: RunActual,
    pub passed: bool,
}

/// The result's `kind` is `k`.
pub open spec fn kind_is(r: JsonValue, k: Seq<char>) -> bool {
    field_is(r, "kind"@, k)
}

/// The first result of kind `k`.
pub open spec fn first_of_kind(rs: Seq<JsonValue>, k: Seq<char>) -> Option<int> {
    first_index(rs, |r: JsonValue| kind_is(r, k))
}

/// The number of assertions that failed (`passed` is `false`).
pub open spec fn failed_asserts(rs: Seq<JsonValue>) -> nat
    decreases rs.len(),
{
    if rs.len() == 0 {
        0
    } else {
        failed_asserts(rs.drop_last()) + (if kind_is(rs.last(), "assert"@) && bool_of(
            field(rs.last(), "passed"@),
        ) == Some(false) {
            1nat
        } else {
            0nat
        })
    }
}

pub open spec fn text_is(a: RunActual, t: Seq<char>) -> bool {
    match a {
        RunActual::Text(s) => s@ == t,
        RunActual::Value(_) => false,
    }
}

pub open spec fn u64_or_zero(v: Option<u64>) -> nat {
    match v {
        Some(n) => n as nat,
        None => 0,
    }
}

/// How a run is shown: assertions as exceptions (expected 0, actual the
/// number that failed, passed as the first assertion says); else the first
/// error; else a first sample (population and selection) or value; else the
/// number of results.
pub open spec fn run_outcome(rs: Seq<JsonValue>, o: RunOutcome) -> bool {
    match first_of_kind(rs, "assert"@) {
        Some(k) => o.expr_type@ == "EXCEPTIONS"@ && o.expected@ == "0"@ && text_is(o.actual, dec(failed_asserts(rs)))
            && o.passed == (bool_of(field(rs[k], "passed"@)) == Some(true)),
        None => match first_of_kind(rs, "error"@) {
            Some(k) => o.expr_type@ == "ERROR"@ && o.expected@ == "\u{2014}"@ && text_is(
                o.actual,
                match str_of(field(rs[k], "error"@)) {
                    Some(e) => e,
                    None => "unknown error"@,
                },
            ) && !o.passed,
            None => if rs.len() > 0 && kind_is(rs[0], "sample"@) {
                o.expr_type@ == "SAMPLE"@ && o.expected@ == dec(u64_or_zero(u64_of(field(rs[0], "population_size"@))))
                    && text_is(o.actual, dec(u64_or_zero(u64_of(field(rs[0], "selected_count"@))))) && o.passed
            } else if rs.len() > 0 && kind_is(rs[0], "value"@) {
                o.expr_type@ == "MATH"@ && o.expected@ == "\u{2014}"@ && o.actual == RunActual::Value(
                    match field(rs[0], "value"@) {
                        Some(v) => v,
                        None => JsonValue::Null,
                    },
                ) && o.passed
            } else {
                o.expr_type@ == "RUN"@ && o.expected@ == "\u{2014}"@ && text_is(o.actual, dec(rs.len()) + " result(s)"@)
                    && o.passed
            },
        },
    }
}

/// A run with an assertion is shown as passed exactly when its first
/// assertion says `"passed": true`; it is shown as `EXCEPTIONS` expecting 0
/// failures; and when every assertion of the run passed, the failures shown
/// are 0 and the run passed.
pub proof fn law_run_passes_as_its_first_assertion(rs: Seq<JsonValue>, o: RunOutcome, k: int)
    requires
        run_outcome(rs, o),
        0 <= k < rs.len(),
        kind_is(rs[k], "assert"@),
        forall|j: int| 0 <= j < k ==> !kind_is(#[trigger] rs[j], "assert"@),
    ensures
        o.passed == (bool_of(field(rs[k], "passed"@)) == Some(true)),
        o.expr_type@ == "EXCEPTIONS"@,
        o.expected@ == "0"@,
        (forall|j: int| 0 <= j < rs.len() && kind_is(#[trigger] rs[j], "assert"@) ==> bool_of(field(rs[j], "passed"@)) == Some(true))
            ==> o.passed && text_is(o.actual, "0"@),
{
    let p = |r: JsonValue| kind_is(r, "assert"@);
    lemma_first_kind(rs, p, k);
    if forall|j: int| 0 <= j < rs.len() && kind_is(#[trigger] rs[j], "assert"@) ==> bool_of(field(rs[j], "passed"@)) == Some(true) {
        lemma_no_failed(rs);
        reveal_strlit("0");
        assert(dec(0) =~= "0"@);
    }
}

proof fn lemma_first_kind(rs: Seq<JsonValue>, p: spec_fn(JsonValue) -> bool, k: int)
    requires
        0 <= k < rs.len(),
        p(rs[k]),
        forall|j: int| 0 <= j < k ==> !p(#[trigger] rs[j]),
    ensures
        first_index(rs, p) == Some(k),
{
    crate::seqs::lemma_first_index_from(rs, p, 0);
    match first_index(rs, p) {
        Some(m) => {
            if m < k {
                assert(!p(rs[m]));
            }
        },
        None => {
            assert(!p(rs[k]));
        },
    }
}

proof fn lemma_no_failed(rs: Seq<JsonValue>)
    requires
        forall|j: int| 0 <= j < rs.len() && kind_is(#[trigger] rs[j], "assert"@) ==> bool_of(field(rs[j], "passed"@)) == Some(true),
    ensures
        failed_asserts(rs) == 0,
    decreases rs.len(),
{
    if rs.len() > 0 {
        let q = rs.drop_last();
        assert forall|j: int| 0 <= j < q.len() && kind_is(#[trigger] q[j], "assert"@) implies bool_of(field(q[j], "passed"@)) == Some(true) by {
            assert(q[j] == rs[j]);
        }
        lemma_no_failed(q);
        assert(rs.last() == rs[rs.len() - 1]);
    }
}

fn first_of_kind_exec(rs: &Vec<JsonValue>, k: &str) -> (r: Option<usize>)
    ensures
        r matches Some(i) ==> i < rs.len() && first_of_kind(rs@, k@) == Some(i as int),
        r is None ==> first_of_kind(rs@, k@) is None,
{
    let ghost p = |r: JsonValue| kind_is(r, k@);
    let mut i: usize = 0;
    while i < rs.len()
        invariant
            i <= rs.len(),
            p == (|r: JsonValue| kind_is(r, k@)),
            first_index(rs@, p) == first_index_from(rs@, p, i as int),
        decreases rs.len() - i,
    {
        if field_equals(&rs[i], "kind", k) {
            assert(p(rs@[i as int]));
            return Some(i);
        }
        i = i + 1;
    }
    None
}

fn text(s: &str) -> (r: RunActual)
    ensures
        text_is(r, s@),
{
    RunActual::Text(string_of(chars_of(s).as_slice()))
}

fn owned(s: &str) -> (r: String)
    ensures
        r@ == s@,
{
    string_of(chars_of(s).as_slice())
}

/// Reads the results of a run for display (see `run_outcome`).
pub fn parse_run_result(results: Vec<JsonValue>) -> (o: RunOutcome)
    ensures
        run_outcome(results@, o),
{
    let ghost rs = results@;
    match first_of_kind_exec(&results, "assert") {
        Some(k) => {
            let passed = match get_bool(&results[k], "passed") {
                Some(b) => b,
                None => false,
            };
            let mut failed: usize = 0;
            let mut i: usize = 0;
            assert(rs.take(0) =~= Seq::<JsonValue>::empty());
            while i < results.len()
                invariant
                    i <= results.len(),
                    results@ == rs,
                    failed == failed_asserts(rs.take(i as int)),
                    failed <= i,
                decreases results.len() - i,
            {
                proof {
                    assert(rs.take(i + 1).drop_last() =~= rs.take(i as int));
                    assert(rs.take(i + 1).last() == rs[i as int]);
                }
                if field_equals(&results[i], "kind", "assert") && get_bool(&results[i], "passed") == Some(false) {
                    failed = failed + 1;
                }
                i = i + 1;
            }
            assert(rs.take(results.len() as int) =~= rs);
            let n = fmt_usize(failed);
            RunOutcome {
                expr_type: owned("EXCEPTIONS"),
                expected: owned("0"),
                actual: RunActual::Text(string_of(n.as_slice())),
                passed,
            }
        },
        None => match first_of_kind_exec(&results, "error") {
            Some(k) => {
                let msg = match get_str(&results[k], "error") {
                    Some(e) => RunActual::Text(e.clone()),
                    None => text("unknown error"),
                };
                RunOutcome { expr_type: owned("ERROR"), expected: owned("\u{2014}"), actual: msg, passed: false }
            },
            None => {
                if results.len() > 0 && field_equals(&results[0], "kind", "sample") {
                    let pop = match get_u64(&results[0], "population_size") {
                        Some(n) => n,
                        None => 0,
                    };
                    let sel = match get_u64(&results[0], "selected_count") {
                        Some(n) => n,
                        None => 0,
                    };
                    let e = fmt_u64(pop);
                    let a = fmt_u64(sel);
                    RunOutcome {
                        expr_type: owned("SAMPLE"),
                        expected: string_of(e.as_slice()),
                        actual: RunActual::Text(string_of(a.as_slice())),
                        passed: true,
                    }
                } else if results.len() > 0 && field_equals(&results[0], "kind", "value") {
                    let mut results = results;
                    let r0 = results.remove(0);
                    let v = match take_field(r0, "value") {
                        Some(v) => v,
                        None => JsonValue::Null,
                    };
                    RunOutcome { expr_type: owned("MATH"), expected: owned("\u{2014}"), actual: RunActual::Value(v), passed: true }
                } else {
                    let mut a = fmt_usize(results.len());
                    extend_str(&mut a, " result(s)");
                    RunOutcome {
                        expr_type: owned("RUN"),
                        expected: owned("\u{2014}"),
                        actual: RunActual::Text(string_of(a.as_slice())),
                        passed: true,
                    }
                }
            },
        },
    }
}

} // verus!
