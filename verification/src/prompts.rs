//! Plain-text sections of the prompts sent to the language model: the
//! available tables, a worked DSL example, and the audit plan.
use vstd::prelude::*;
use crate::model::{join_strings, strs, AuditProcessWithControls, Control, SessionSchema};
use crate::seqs::{first_index, first_index_from, lemma_flatten_empty, lemma_flatten_step};
use crate::text::{
    chars_of, contains_str, dec_int, extend_chars, extend_str, fmt_i64, has_sub, join, string_of,
};
use crate::unicode::{lower_str, lowercase};

verus! {

// ───────────────────────────── schema section ─────────────────────────────

/// `Table: <name> (<rows> rows)` followed by its columns.
pub open spec fn schema_entry(s: SessionSchema) -> Seq<char> {
    "Table: "@ + s.table_name@ + " ("@ + dec_int(s.row_count as int) + " rows)\n  Columns: "@
        + join(strs(s.columns@), ", "@) + "\n\n"@
}

/// The table listing: one entry per schema, in order.
pub open spec fn schema_section(schemas: Seq<SessionSchema>) -> Seq<char> {
    schemas.map_values(|s: SessionSchema| schema_entry(s)).flatten()
}

fn schema_entry_exec(s: &SessionSchema) -> (r: Vec<char>)
    ensures
        r@ == schema_entry(*s),
{
    let mut r = chars_of("Table: ");
    extend_str(&mut r, s.table_name.as_str());
    extend_str(&mut r, " (");
    let n = fmt_i64(s.row_count);
    extend_chars(&mut r, n.as_slice());
    extend_str(&mut r, " rows)\n  Columns: ");
    let cols = join_strings(s.columns.as_slice(), ", ");
    extend_chars(&mut r, cols.as_slice());
    extend_str(&mut r, "\n\n");
    r
}

/// Lists every imported table with its row count and columns.
pub fn build_schema_section(schemas: &[SessionSchema]) -> (out: String)
    ensures
        out@ == schema_section(schemas@),
{
    let ghost f = |s: SessionSchema| schema_entry(s);
    let mut out: Vec<char> = Vec::new();
    proof {
        lemma_flatten_empty(schemas@, f);
    }
    let mut i: usize = 0;
    while i < schemas.len()
        invariant
            i <= schemas.len(),
            f == (|s: SessionSchema| schema_entry(s)),
            out@ == schemas@.take(i as int).map_values(f).flatten(),
        decreases schemas.len() - i,
    {
        let e = schema_entry_exec(&schemas[i]);
        extend_chars(&mut out, e.as_slice());
        proof {
            assert(f(schemas@[i as int]) == e@);
            lemma_flatten_step(schemas@, f, i as int);
        }
        i = i + 1;
    }
    assert(schemas@.take(schemas.len() as int) =~= schemas@);
    string_of(out.as_slice())
}

// ───────────────────────────── table names ─────────────────────────────

/// One bullet per table name.
pub open spec fn table_name_line(s: SessionSchema) -> Seq<char> {
    "  - "@ + s.table_name@ + "\n"@
}

/// The list of table names the model may reference.
pub open spec fn table_names_section(schemas: Seq<SessionSchema>) -> Seq<char> {
    "VALID TABLE NAMES (copy these EXACTLY \u{2014} no other names are permitted):\n"@
        + schemas.map_values(|s: SessionSchema| table_name_line(s)).flatten() + "\n"@
}

/// Returns a bullet-list of every table name the model is allowed to reference.
pub fn build_table_names_section(schemas: &[SessionSchema]) -> (out: String)
    ensures
        out@ == table_names_section(schemas@),
{
    let ghost f = |s: SessionSchema| table_name_line(s);
    let head = chars_of("VALID TABLE NAMES (copy these EXACTLY \u{2014} no other names are permitted):\n");
    let mut body: Vec<char> = Vec::new();
    proof {
        lemma_flatten_empty(schemas@, f);
    }
    let mut i: usize = 0;
    while i < schemas.len()
        invariant
            i <= schemas.len(),
            f == (|s: SessionSchema| table_name_line(s)),
            body@ == schemas@.take(i as int).map_values(f).flatten(),
        decreases schemas.len() - i,
    {
        let mut e = chars_of("  - ");
        extend_str(&mut e, schemas[i].table_name.as_str());
        extend_str(&mut e, "\n");
        extend_chars(&mut body, e.as_slice());
        proof {
            assert(f(schemas@[i as int]) == e@);
            lemma_flatten_step(schemas@, f, i as int);
        }
        i = i + 1;
    }
    assert(schemas@.take(schemas.len() as int) =~= schemas@);
    let mut out = head;
    extend_chars(&mut out, body.as_slice());
    extend_str(&mut out, "\n");
    string_of(out.as_slice())
}

// ───────────────────────────── worked example ─────────────────────────────

/// The column name suggests an amount (lowercased, contains a numeric hint).
pub open spec fn numeric_hint(c: Seq<char>) -> bool {
    let l = lowercase(c);
    has_sub(l, "amount"@) || has_sub(l, "value"@) || has_sub(l, "total"@) || has_sub(l, "sum"@)
        || has_sub(l, "price"@) || has_sub(l, "cost"@) || has_sub(l, "bal"@) || has_sub(l, "qty"@)
}

/// The column name suggests a categorical text column.
pub open spec fn text_hint(c: Seq<char>) -> bool {
    let l = lowercase(c);
    has_sub(l, "status"@) || has_sub(l, "type"@) || has_sub(l, "code"@)
}

/// The numeric column of the example: the first hinted one, else the second
/// column, else the first, else `id`.
pub open spec fn example_num_col(cols: Seq<Seq<char>>) -> Seq<char> {
    match first_index(cols, |c: Seq<char>| numeric_hint(c)) {
        Some(k) => cols[k],
        None => if cols.len() > 1 {
            cols[1]
        } else if cols.len() == 1 {
            cols[0]
        } else {
            "id"@
        },
    }
}

/// The text column of the example: the first hinted one, else the first
/// column, else `id`.
pub open spec fn example_str_col(cols: Seq<Seq<char>>) -> Seq<char> {
    match first_index(cols, |c: Seq<char>| text_hint(c)) {
        Some(k) => cols[k],
        None => if cols.len() >= 1 {
            cols[0]
        } else {
            "id"@
        },
    }
}

/// The worked DSL example built on the first table (empty without tables).
pub open spec fn example_section(schemas: Seq<SessionSchema>) -> Seq<char> {
    if schemas.len() == 0 {
        Seq::empty()
    } else {
        let name = schemas[0].table_name@;
        let cols = strs(schemas[0].columns@);
        let n = example_num_col(cols);
        let s = example_str_col(cols);
        "WORKED EXAMPLE using your actual table '"@ + name + "':\n-- Count check\nASSERT COUNT("@
            + name + "."@ + s + ") > 0\n-- Completeness\nASSERT "@ + name + "."@ + s
            + " IS NOT NULL\n-- Aggregate threshold\nASSERT SUM("@ + name + "."@ + n
            + ") > 0\n-- MUS sample\nSAMPLE MUS FROM "@ + name + "."@ + n
            + " SIZE 30\n\nUse EXACTLY these table/column names \u{2014} never invent others.\n\n"@
    }
}

fn is_numeric_hint(c: &str) -> (b: bool)
    ensures
        b == numeric_hint(c@),
{
    let l = lower_str(c);
    let s = l.as_slice();
    contains_str(s, "amount") || contains_str(s, "value") || contains_str(s, "total")
        || contains_str(s, "sum") || contains_str(s, "price") || contains_str(s, "cost")
        || contains_str(s, "bal") || contains_str(s, "qty")
}

fn is_text_hint(c: &str) -> (b: bool)
    ensures
        b == text_hint(c@),
{
    let l = lower_str(c);
    let s = l.as_slice();
    contains_str(s, "status") || contains_str(s, "type") || contains_str(s, "code")
}

fn pick_num_col(cols: &[String]) -> (r: Vec<char>)
    ensures
        r@ == example_num_col(strs(cols@)),
{
    let ghost p = |c: Seq<char>| numeric_hint(c);
    let mut i: usize = 0;
    while i < cols.len()
        invariant
            i <= cols.len(),
            first_index(strs(cols@), p) == first_index_from(strs(cols@), p, i as int),
            p == (|c: Seq<char>| numeric_hint(c)),
        decreases cols.len() - i,
    {
        let hit = is_numeric_hint(cols[i].as_str());
        assert(strs(cols@)[i as int] == cols@[i as int]@);
        assert(hit == p(strs(cols@)[i as int]));
        if hit {
            return chars_of(cols[i].as_str());
        }
        i = i + 1;
    }
    if cols.len() > 1 {
        chars_of(cols[1].as_str())
    } else if cols.len() == 1 {
        chars_of(cols[0].as_str())
    } else {
        chars_of("id")
    }
}

fn pick_str_col(cols: &[String]) -> (r: Vec<char>)
    ensures
        r@ == example_str_col(strs(cols@)),
{
    let ghost p = |c: Seq<char>| text_hint(c);
    let mut i: usize = 0;
    while i < cols.len()
        invariant
            i <= cols.len(),
            first_index(strs(cols@), p) == first_index_from(strs(cols@), p, i as int),
            p == (|c: Seq<char>| text_hint(c)),
        decreases cols.len() - i,
    {
        let hit = is_text_hint(cols[i].as_str());
        assert(strs(cols@)[i as int] == cols@[i as int]@);
        assert(hit == p(strs(cols@)[i as int]));
        if hit {
            return chars_of(cols[i].as_str());
        }
        i = i + 1;
    }
    if cols.len() >= 1 {
        chars_of(cols[0].as_str())
    } else {
        chars_of("id")
    }
}

/// Builds a few-shot DSL example on the first table and its columns, so the
/// model sees real table and column names before it writes any script.
pub fn build_example_section(schemas: &[SessionSchema]) -> (out: String)
    ensures
        out@ == example_section(schemas@),
{
    if schemas.len() == 0 {
        return String::new();
    }
    let tbl = &schemas[0];
    let name = chars_of(tbl.table_name.as_str());
    let n = pick_num_col(tbl.columns.as_slice());
    let s = pick_str_col(tbl.columns.as_slice());
    let mut r = chars_of("WORKED EXAMPLE using your actual table '");
    extend_chars(&mut r, name.as_slice());
    extend_str(&mut r, "':\n-- Count check\nASSERT COUNT(");
    extend_chars(&mut r, name.as_slice());
    extend_str(&mut r, ".");
    extend_chars(&mut r, s.as_slice());
    extend_str(&mut r, ") > 0\n-- Completeness\nASSERT ");
    extend_chars(&mut r, name.as_slice());
    extend_str(&mut r, ".");
    extend_chars(&mut r, s.as_slice());
    extend_str(&mut r, " IS NOT NULL\n-- Aggregate threshold\nASSERT SUM(");
    extend_chars(&mut r, name.as_slice());
    extend_str(&mut r, ".");
    extend_chars(&mut r, n.as_slice());
    extend_str(&mut r, ") > 0\n-- MUS sample\nSAMPLE MUS FROM ");
    extend_chars(&mut r, name.as_slice());
    extend_str(&mut r, ".");
    extend_chars(&mut r, n.as_slice());
    extend_str(&mut r, " SIZE 30\n\nUse EXACTLY these table/column names \u{2014} never invent others.\n\n");
    string_of(r.as_slice())
}

// ───────────────────────────── plan text ─────────────────────────────

/// One control as the plain-text plan lists it.
pub open spec fn control_block(c: Control) -> Seq<char> {
    "  Control "@ + c.control_ref@ + ": "@ + c.control_objective@ + "\n    How it operates: "@
        + c.control_description@ + "\n    Test procedure: "@ + c.test_procedure@
        + "\n    Risk: "@ + c.risk_level@ + "\n"@
}

/// One process with all its controls, followed by an empty line.
pub open spec fn process_block(p: AuditProcessWithControls) -> Seq<char> {
    "Process: "@ + p.process_name@ + "\nDescription: "@ + p.description@ + "\n"@
        + p.controls@.map_values(|c: Control| control_block(c)).flatten() + "\n"@
}

/// The plain-text audit plan of a list of processes.
pub open spec fn plan_text(ps: Seq<AuditProcessWithControls>) -> Seq<char> {
    ps.map_values(|p: AuditProcessWithControls| process_block(p)).flatten()
}

fn control_block_exec(c: &Control) -> (r: Vec<char>)
    ensures
        r@ == control_block(*c),
{
    let mut r = chars_of("  Control ");
    extend_str(&mut r, c.control_ref.as_str());
    extend_str(&mut r, ": ");
    extend_str(&mut r, c.control_objective.as_str());
    extend_str(&mut r, "\n    How it operates: ");
    extend_str(&mut r, c.control_description.as_str());
    extend_str(&mut r, "\n    Test procedure: ");
    extend_str(&mut r, c.test_procedure.as_str());
    extend_str(&mut r, "\n    Risk: ");
    extend_str(&mut r, c.risk_level.as_str());
    extend_str(&mut r, "\n");
    r
}

fn process_block_exec(p: &AuditProcessWithControls) -> (r: Vec<char>)
    ensures
        r@ == process_block(*p),
{
    let ghost f = |c: Control| control_block(c);
    let mut body: Vec<char> = Vec::new();
    proof {
        lemma_flatten_empty(p.controls@, f);
    }
    let mut i: usize = 0;
    while i < p.controls.len()
        invariant
            i <= p.controls.len(),
            f == (|c: Control| control_block(c)),
            body@ == p.controls@.take(i as int).map_values(f).flatten(),
        decreases p.controls.len() - i,
    {
        let e = control_block_exec(&p.controls[i]);
        extend_chars(&mut body, e.as_slice());
        proof {
            assert(f(p.controls@[i as int]) == e@);
            lemma_flatten_step(p.controls@, f, i as int);
        }
        i = i + 1;
    }
    assert(p.controls@.take(p.controls.len() as int) =~= p.controls@);
    let mut r = chars_of("Process: ");
    extend_str(&mut r, p.process_name.as_str());
    extend_str(&mut r, "\nDescription: ");
    extend_str(&mut r, p.description.as_str());
    extend_str(&mut r, "\n");
    extend_chars(&mut r, body.as_slice());
    extend_str(&mut r, "\n");
    r
}

/// Formats processes as the plain-text audit plan the model expects.
pub fn format_plan_chunk(processes: &[AuditProcessWithControls]) -> (out: String)
    ensures
        out@ == plan_text(processes@),
{
    let ghost f = |p: AuditProcessWithControls| process_block(p);
    let mut out: Vec<char> = Vec::new();
    proof {
        lemma_flatten_empty(processes@, f);
    }
    let mut i: usize = 0;
    while i < processes.len()
        invariant
            i <= processes.len(),
            f == (|p: AuditProcessWithControls| process_block(p)),
            out@ == processes@.take(i as int).map_values(f).flatten(),
        decreases processes.len() - i,
    {
        let e = process_block_exec(&processes[i]);
        extend_chars(&mut out, e.as_slice());
        proof {
            assert(f(processes@[i as int]) == e@);
            lemma_flatten_step(processes@, f, i as int);
        }
        i = i + 1;
    }
    assert(processes@.take(processes.len() as int) =~= processes@);
    string_of(out.as_slice())
}

// ───────────────────────────── regeneration prompt ─────────────────────────────

/// `- <process>` for one process in scope.
pub open spec fn scope_line(s: Seq<char>) -> Seq<char> {
    "- "@ + s
}

/// The prompt that regenerates an audit plan for the processes in scope.
pub open spec fn regen_prompt(base: Seq<char>, scope: Seq<Seq<char>>, sop: Seq<char>) -> Seq<char> {
    if scope.len() == 0 {
        base + "\n\n"@ + sop
    } else {
        base
            + "\n\nIMPORTANT: You MUST generate exactly one process entry for EACH of the following processes \u{2014} do not skip, merge, or add extras:\n"@
            + join(scope.map_values(|s: Seq<char>| scope_line(s)), "\n"@) + "\n\nSOP TEXT:\n"@ + sop
    }
}

/// Builds the plan-regeneration prompt: `base` is the SOP-analysis
/// instruction, `scope` the processes that must each get one entry.
pub fn build_regen_prompt(base: &str, scope: &[String], sop_text: &str) -> (out: String)
    ensures
        out@ == regen_prompt(base@, strs(scope@), sop_text@),
{
    let mut r = chars_of(base);
    if scope.len() == 0 {
        extend_str(&mut r, "\n\n");
        extend_str(&mut r, sop_text);
        return string_of(r.as_slice());
    }
    let mut lines: Vec<String> = Vec::new();
    let mut i: usize = 0;
    while i < scope.len()
        invariant
            i <= scope.len(),
            strs(lines@) == strs(scope@).take(i as int).map_values(|s: Seq<char>| scope_line(s)),
        decreases scope.len() - i,
    {
        let mut l = chars_of("- ");
        extend_str(&mut l, scope[i].as_str());
        let ls = string_of(l.as_slice());
        let ghost prev = strs(lines@);
        lines.push(ls);
        proof {
            assert(strs(lines@) =~= prev.push(ls@));
            assert(strs(scope@).take(i + 1).map_values(|s: Seq<char>| scope_line(s)) =~= strs(scope@).take(i as int).map_values(|s: Seq<char>| scope_line(s)).push(scope_line(scope@[i as int]@)));
        }
        i = i + 1;
    }
    assert(strs(scope@).take(scope.len() as int) =~= strs(scope@));
    extend_str(&mut r, "\n\nIMPORTANT: You MUST generate exactly one process entry for EACH of the following processes \u{2014} do not skip, merge, or add extras:\n");
    let joined = join_strings(lines.as_slice(), "\n");
    extend_chars(&mut r, joined.as_slice());
    extend_str(&mut r, "\n\nSOP TEXT:\n");
    extend_str(&mut r, sop_text);
    string_of(r.as_slice())
}

} // verus!
