//! The decisions around script generation: one round of deterministic
//! repairs, and what is saved for a script once every repair has run.
use vstd::prelude::*;
use crate::text::same_chars;
use crate::model::{join_strings, strs, AuditProcessWithControls, Control, SessionSchema};
use crate::json::{array_of, field, get_array, get_str, str_of, JsonValue};
use crate::order::{insert_sorted, lemma_push_to_set, lemma_sort_dedup_is, sort_dedup, strictly_sorted};
use crate::script_fix::{
    drop_invalid_column_lines, fallback_col, fallback_sample_col, lemma_somes_step, repair_column_in_wrong_table,
    repair_unknown_tables, somes, unknown_tables_repaired, without_bad_lines, wrong_tables_repaired,
};
use crate::table_match::{any_col_eq, any_eq};
use crate::seqs::{first_index, first_index_from};
use crate::unicode::eq_ignore_ascii_case;
use crate::text::{
    chars_of, extend_chars, extend_str, find, find_chars, join, join_str, seqs_of, slice_range, split, split_chars,
    starts_with, starts_with_chars, str_eq, string_of, trim, trim_chars,
};

verus! {

/// Where a generated script stands in review.
#[derive(Clone, Debug)]
pub enum ScriptStatus {
    Generated,
    Edited,
    Approved,
    Rejected,
    ValidationError(String),
}

/// A script's review status and current text.
#[derive(Clone, Debug)]
pub struct ScriptState {
    pub status: ScriptStatus,
    pub text: String,
}

/// The message of a failed validation, `None` for any other status.
pub open spec fn failure_of(s: ScriptStatus) -> Option<Seq<char>> {
    match s {
        ScriptStatus::ValidationError(m) => Some(m@),
        _ => None,
    }
}

/// Some error starts with `p`.
pub open spec fn any_starts(errors: Seq<Seq<char>>, p: Seq<char>) -> bool {
    exists|i: int| 0 <= i < errors.len() && starts_with(#[trigger] errors[i], p)
}

fn any_starts_exec(errors: &[String], p: &str) -> (b: bool)
    ensures
        b == any_starts(strs(errors@), p@),
{
    let pv = chars_of(p);
    let mut i: usize = 0;
    while i < errors.len()
        invariant
            i <= errors.len(),
            pv@ == p@,
            forall|k: int| 0 <= k < i ==> !starts_with(#[trigger] strs(errors@)[k], p@),
        decreases errors.len() - i,
    {
        let e = chars_of(errors[i].as_str());
        if starts_with_chars(e.as_slice(), pv.as_slice()) {
            assert(starts_with(strs(errors@)[i as int], p@));
            return true;
        }
        i = i + 1;
    }
    false
}

/// One round of deterministic repairs: invented tables are replaced when an
/// error names one, then misplaced columns are moved when an error names
/// one; the flag tells whether the script changed. `None` where matching
/// an invented table is `None` (see `best_table_model`).
pub open spec fn repair_round_model(script: Seq<char>, errors: Seq<Seq<char>>, schemas: Seq<SessionSchema>) -> Option<(Seq<char>, bool)> {
    let first: Option<(Seq<char>, bool)> = if any_starts(errors, "unknown table '"@) {
        match unknown_tables_repaired(script, errors, schemas) {
            None => None,
            Some(r) => if r != script {
                Some((r, true))
            } else {
                Some((script, false))
            },
        }
    } else {
        Some((script, false))
    };
    match first {
        None => None,
        Some((s, changed)) => if any_starts(errors, "unknown column '"@) {
            let r = wrong_tables_repaired(s, errors, schemas);
            if r != s {
                Some((r, true))
            } else {
                Some((s, changed))
            }
        } else {
            Some((s, changed))
        },
    }
}

/// One round of deterministic repairs of a script against the validator's
/// errors; returns the script and whether it changed (the caller validates
/// again and stops after a round that changes nothing).
pub fn repair_round(script: &str, errors: &[String], schemas: &[SessionSchema]) -> (r: Option<(String, bool)>)
    ensures
        r matches Some(v) ==> repair_round_model(script@, strs(errors@), schemas@) == Some((v.0@, v.1)),
        r is None ==> repair_round_model(script@, strs(errors@), schemas@) is None,
{
    let mut s = string_of(chars_of(script).as_slice());
    let mut changed = false;
    if any_starts_exec(errors, "unknown table '") {
        match repair_unknown_tables(s.as_str(), errors, schemas) {
            None => return None,
            Some(r) => {
                if r != s {
                    s = r;
                    changed = true;
                }
            },
        }
    }
    let ghost mid = s@;
    if any_starts_exec(errors, "unknown column '") {
        let r = repair_column_in_wrong_table(s.as_str(), errors, schemas);
        if r != s {
            s = r;
            changed = true;
        }
    }
    Some((s, changed))
}

/// How many repair rounds a script gets before the model's fix pass.
pub const REPAIR_ROUNDS: usize = 3;

/// The next step of the repair rounds, after round `round` (from 0) was
/// validated with `errors`: the repaired script when the script has errors,
/// rounds are left and a round changes it; `None` to stop (no errors, no
/// round left, a change-free round, or a repair the text model leaves open).
pub open spec fn repair_next(round: nat, script: Seq<char>, errors: Seq<Seq<char>>, schemas: Seq<SessionSchema>) -> Option<Seq<char>> {
    if round < REPAIR_ROUNDS && errors.len() > 0 {
        match repair_round_model(script, errors, schemas) {
            Some((s, true)) => Some(s),
            _ => None,
        }
    } else {
        None
    }
}

/// One step of the repair rounds (see `repair_next`); the caller validates
/// the script it gets back and takes the next step with round `round + 1`.
pub fn repair_step(round: usize, script: &str, errors: &[String], schemas: &[SessionSchema]) -> (r: Option<String>)
    ensures
        match r {
            Some(s) => repair_next(round as nat, script@, strs(errors@), schemas@) == Some(s@) && round < REPAIR_ROUNDS,
            None => repair_next(round as nat, script@, strs(errors@), schemas@) is None,
        },
{
    if round >= REPAIR_ROUNDS || errors.len() == 0 {
        return None;
    }
    match repair_round(script, errors, schemas) {
        Some((s, true)) => Some(s),
        _ => None,
    }
}

/// The prompt that asks the model for the scripts of the plan.
pub open spec fn dsl_prompt_text(
    base: Seq<char>,
    schema_section: Seq<char>,
    table_names_section: Seq<char>,
    example_section: Seq<char>,
    plan_section: Seq<char>,
) -> Seq<char> {
    base + "AVAILABLE DATA:\n"@ + schema_section + table_names_section + example_section
        + "AUDIT CONTROLS TO TEST:\n"@ + plan_section
        + "\nReturn ONLY a JSON object: {\"scripts\": [{\"control_ref\": \"C-1\", \"label\": \"Test label\", \"script\": \"DSL code here\"}]}"@
}

/// Builds the script generation prompt (see `dsl_prompt_text`).
pub fn dsl_generation_prompt(
    base: &str,
    schema_section: &str,
    table_names_section: &str,
    example_section: &str,
    plan_section: &str,
) -> (s: String)
    ensures
        s@ == dsl_prompt_text(base@, schema_section@, table_names_section@, example_section@, plan_section@),
{
    let mut t = chars_of(base);
    extend_str(&mut t, "AVAILABLE DATA:\n");
    extend_str(&mut t, schema_section);
    extend_str(&mut t, table_names_section);
    extend_str(&mut t, example_section);
    extend_str(&mut t, "AUDIT CONTROLS TO TEST:\n");
    extend_str(&mut t, plan_section);
    extend_str(&mut t, "\nReturn ONLY a JSON object: {\"scripts\": [{\"control_ref\": \"C-1\", \"label\": \"Test label\", \"script\": \"DSL code here\"}]}");
    string_of(t.as_slice())
}

// ───────────────────────────── settling a script ─────────────────────────────

/// The column of an `unknown column 'C...` error when no table has it.
pub open spec fn missing_col_in(e: Seq<char>, schemas: Seq<SessionSchema>) -> Option<Seq<char>> {
    let p = "unknown column '"@;
    if starts_with(e, p) {
        let col = split(e.skip(p.len() as int), "'"@)[0];
        if exists|k: int| 0 <= k < schemas.len() && any_col_eq(strs(#[trigger] schemas[k].columns@), col) {
            None
        } else {
            Some(col)
        }
    } else {
        None
    }
}

/// The columns that no uploaded table has, distinct and sorted.
pub open spec fn missing_cols(errors: Seq<Seq<char>>, schemas: Seq<SessionSchema>) -> Seq<Seq<char>> {
    sort_dedup(somes(errors.map_values(|e: Seq<char>| missing_col_in(e, schemas))))
}

/// `--   table : col, col` for every table.
pub open spec fn available_hint(schemas: Seq<SessionSchema>) -> Seq<char> {
    join(schemas.map_values(|s: SessionSchema| "--   "@ + s.table_name@ + " : "@ + join(strs(s.columns@), ", "@)), "\n"@)
}

pub open spec fn missing_lines(errors: Seq<Seq<char>>, schemas: Seq<SessionSchema>) -> Seq<char> {
    let m = missing_cols(errors, schemas);
    if m.len() == 0 {
        "-- Errors: "@ + join(errors, "; "@)
    } else {
        join(m.map_values(|c: Seq<char>| "--   "@ + c), "\n"@)
    }
}

/// The comment-only script saved when every statement had to be dropped.
pub open spec fn missing_placeholder(errors: Seq<Seq<char>>, schemas: Seq<SessionSchema>) -> Seq<char> {
    "-- Required columns not found in any uploaded data file:\n"@ + missing_lines(errors, schemas)
        + "\n--\n-- AVAILABLE DATA:\n"@ + available_hint(schemas)
        + "\n--\n-- Upload the relevant data file, or rewrite this script\n-- using the available columns listed above."@
}

/// The sampling script saved when statements with errors remain.
pub open spec fn fallback_placeholder(errors: Seq<Seq<char>>, col: Seq<char>) -> Seq<char> {
    "-- Validation failed: "@ + join(errors, "; "@)
        + "\n-- Edit this script using the column names in AVAILABLE DATA.\nSAMPLE RANDOM FROM "@ + col
        + " SIZE 10"@
}

/// What is saved for a script, with the failure message (`None` for a
/// script that validated): the script itself when it has no errors; the
/// script without its broken lines when that validates and is not blank; a
/// comment naming the missing columns when nothing is left; otherwise a
/// sample of the fallback column. `None` when the fallback column cannot be
/// chosen (`fallback_col`).
pub open spec fn settled(
    script: Seq<char>,
    errors: Seq<Seq<char>>,
    salvage_errors: Seq<Seq<char>>,
    label: Seq<char>,
    schemas: Seq<SessionSchema>,
) -> Option<(Seq<char>, Option<Seq<char>>)> {
    if errors.len() == 0 {
        Some((script, None))
    } else {
        let salvaged = without_bad_lines(script, errors);
        let msg = join(errors, "; "@);
        if salvage_errors.len() == 0 && trim(salvaged).len() > 0 {
            Some((salvaged, None))
        } else if trim(salvaged).len() == 0 {
            Some((missing_placeholder(errors, schemas), Some(msg)))
        } else {
            match fallback_col(errors, script, label, schemas) {
                None => None,
                Some(c) => Some((fallback_placeholder(errors, c), Some(msg))),
            }
        }
    }
}

fn missing_cols_exec(errors: &[String], schemas: &[SessionSchema]) -> (r: Vec<Vec<char>>)
    ensures
        seqs_of(r@) == missing_cols(strs(errors@), schemas@),
{
    let ghost f = |e: Seq<char>| missing_col_in(e, schemas@);
    let ghost es = strs(errors@).map_values(f);
    let mut r: Vec<Vec<char>> = Vec::new();
    let mut i: usize = 0;
    assert(es.take(0) =~= Seq::<Option<Seq<char>>>::empty());
    assert(seqs_of(r@).to_set() =~= somes(es.take(0)).to_set());
    while i < errors.len()
        invariant
            i <= errors.len(),
            f == (|e: Seq<char>| missing_col_in(e, schemas@)),
            es == strs(errors@).map_values(f),
            strictly_sorted(seqs_of(r@)),
            seqs_of(r@).to_set() == somes(es.take(i as int)).to_set(),
        decreases errors.len() - i,
    {
        let e = chars_of(errors[i].as_str());
        proof {
            lemma_somes_step(es, i as int);
            assert(es[i as int] == missing_col_in(e@, schemas@));
        }
        let p = chars_of("unknown column '");
        if starts_with_chars(e.as_slice(), p.as_slice()) {
            let rest = slice_range(e.as_slice(), p.len(), e.len());
            assert(rest@ =~= e@.skip("unknown column '"@.len() as int));
            proof {
                reveal_strlit("'");
            }
            let q = chars_of("'");
            let pieces = split_chars(rest.as_slice(), q.as_slice());
            proof {
                crate::text::lemma_split_nonempty(rest@, q@);
            }
            let col = slice_range(pieces[0].as_slice(), 0, pieces[0].len());
            assert(col@ =~= split(rest@, "'"@)[0]);
            let mut found = false;
            let mut k: usize = 0;
            while k < schemas.len()
                invariant
                    k <= schemas.len(),
                    found == exists|m: int| 0 <= m < k && any_col_eq(strs(#[trigger] schemas@[m].columns@), col@),
                decreases schemas.len() - k,
            {
                if any_eq(&schemas[k].columns, col.as_slice()) {
                    found = true;
                }
                k = k + 1;
            }
            if !found {
                proof {
                    lemma_push_to_set(somes(es.take(i as int)), col@);
                }
                insert_sorted(&mut r, col);
            }
        }
        i = i + 1;
    }
    assert(es.take(errors.len() as int) =~= es);
    proof {
        lemma_sort_dedup_is(seqs_of(r@), somes(es));
    }
    r
}

fn available_hint_exec(schemas: &[SessionSchema]) -> (r: Vec<char>)
    ensures
        r@ == available_hint(schemas@),
{
    let ghost f = |s: SessionSchema| "--   "@ + s.table_name@ + " : "@ + join(strs(s.columns@), ", "@);
    let mut parts: Vec<Vec<char>> = Vec::new();
    let mut i: usize = 0;
    while i < schemas.len()
        invariant
            i <= schemas.len(),
            f == (|s: SessionSchema| "--   "@ + s.table_name@ + " : "@ + join(strs(s.columns@), ", "@)),
            seqs_of(parts@) == schemas@.take(i as int).map_values(f),
        decreases schemas.len() - i,
    {
        let mut p = chars_of("--   ");
        extend_str(&mut p, schemas[i].table_name.as_str());
        extend_str(&mut p, " : ");
        let cols = join_strings(schemas[i].columns.as_slice(), ", ");
        extend_chars(&mut p, cols.as_slice());
        let ghost prev = seqs_of(parts@);
        parts.push(p);
        assert(seqs_of(parts@) =~= prev.push(f(schemas@[i as int])));
        assert(schemas@.take(i + 1).map_values(f) =~= schemas@.take(i as int).map_values(f).push(f(schemas@[i as int])));
        i = i + 1;
    }
    assert(schemas@.take(schemas.len() as int) =~= schemas@);
    join_str(parts.as_slice(), "\n")
}

fn missing_placeholder_exec(errors: &[String], schemas: &[SessionSchema]) -> (r: Vec<char>)
    ensures
        r@ == missing_placeholder(strs(errors@), schemas@),
{
    let m = missing_cols_exec(errors, schemas);
    let lines = if m.len() == 0 {
        let mut l = chars_of("-- Errors: ");
        let j = join_strings(errors, "; ");
        extend_chars(&mut l, j.as_slice());
        l
    } else {
        let ghost f = |c: Seq<char>| "--   "@ + c;
        let mut parts: Vec<Vec<char>> = Vec::new();
        let mut i: usize = 0;
        while i < m.len()
            invariant
                i <= m.len(),
                f == (|c: Seq<char>| "--   "@ + c),
                seqs_of(parts@) == seqs_of(m@).take(i as int).map_values(f),
            decreases m.len() - i,
        {
            let mut p = chars_of("--   ");
            extend_chars(&mut p, m[i].as_slice());
            let ghost prev = seqs_of(parts@);
            parts.push(p);
            assert(seqs_of(parts@) =~= prev.push(f(seqs_of(m@)[i as int])));
            assert(seqs_of(m@).take(i + 1).map_values(f) =~= seqs_of(m@).take(i as int).map_values(f).push(f(seqs_of(m@)[i as int])));
            i = i + 1;
        }
        assert(seqs_of(m@).take(m.len() as int) =~= seqs_of(m@));
        join_str(parts.as_slice(), "\n")
    };
    let mut r = chars_of("-- Required columns not found in any uploaded data file:\n");
    extend_chars(&mut r, lines.as_slice());
    extend_str(&mut r, "\n--\n-- AVAILABLE DATA:\n");
    let h = available_hint_exec(schemas);
    extend_chars(&mut r, h.as_slice());
    extend_str(&mut r, "\n--\n-- Upload the relevant data file, or rewrite this script\n-- using the available columns listed above.");
    r
}

/// What is saved for a generated script once every repair has run, given
/// the validator's errors for the script (`errors`) and for the script with
/// its broken lines dropped by `drop_invalid_column_lines` (`salvage_errors`):
/// see `settled`. The status is `Generated`, or `ValidationError` with the
/// errors joined by `"; "`.
pub fn settle_script(
    script: &str,
    errors: &[String],
    salvage_errors: &[String],
    label: &str,
    schemas: &[SessionSchema],
) -> (r: Option<(String, ScriptStatus)>)
    ensures
        r matches Some(v) ==> settled(script@, strs(errors@), strs(salvage_errors@), label@, schemas@) == Some(
            (v.0@, failure_of(v.1)),
        ) && (v.1 is Generated || v.1 is ValidationError),
        r is None ==> settled(script@, strs(errors@), strs(salvage_errors@), label@, schemas@) is None,
{
    if errors.len() == 0 {
        return Some((string_of(chars_of(script).as_slice()), ScriptStatus::Generated));
    }
    let salvaged = drop_invalid_column_lines(script, errors);
    let sv = chars_of(salvaged.as_str());
    let t = trim_chars(sv.as_slice());
    if salvage_errors.len() == 0 && t.len() > 0 {
        return Some((salvaged, ScriptStatus::Generated));
    }
    let msg = string_of(join_strings(errors, "; ").as_slice());
    if t.len() == 0 {
        let p = missing_placeholder_exec(errors, schemas);
        return Some((string_of(p.as_slice()), ScriptStatus::ValidationError(msg)));
    }
    match fallback_sample_col(errors, script, label, schemas) {
        None => None,
        Some(c) => {
            let mut p = chars_of("-- Validation failed: ");
            extend_str(&mut p, msg.as_str());
            extend_str(&mut p, "\n-- Edit this script using the column names in AVAILABLE DATA.\nSAMPLE RANDOM FROM ");
            extend_str(&mut p, c.as_str());
            extend_str(&mut p, " SIZE 10");
            Some((string_of(p.as_slice()), ScriptStatus::ValidationError(msg)))
        },
    }
}

// ───────────────────────────── generated scripts ─────────────────────────────

/// (control ref, label, script) of one generated script: the label defaults
/// to the control ref; items without a control ref or with a blank script
/// are skipped.
pub open spec fn script_entry(item: JsonValue) -> Option<(Seq<char>, Seq<char>, Seq<char>)> {
    match str_of(field(item, "control_ref"@)) {
        None => None,
        Some(cr) => {
            let label = match str_of(field(item, "label"@)) {
                Some(l) => l,
                None => cr,
            };
            match str_of(field(item, "script"@)) {
                None => None,
                Some(sc) => if trim(sc).len() == 0 {
                    None
                } else {
                    Some((cr, label, sc))
                },
            }
        },
    }
}

/// The scripts of a `{"scripts": [...]}` reply, in order.
pub open spec fn script_entries(v: JsonValue) -> Seq<(Seq<char>, Seq<char>, Seq<char>)> {
    match array_of(field(v, "scripts"@)) {
        Some(items) => somes(items.map_values(|i: JsonValue| script_entry(i))),
        None => Seq::empty(),
    }
}

/// The character sequences of string triples.
pub open spec fn triple_views(v: Seq<(String, String, String)>) -> Seq<(Seq<char>, Seq<char>, Seq<char>)> {
    Seq::new(v.len(), |i: int| (v[i].0@, v[i].1@, v[i].2@))
}

/// Reads the (control ref, label, script) triples of a generated-scripts
/// reply: every item of its `scripts` array that has a string `control_ref`
/// and a non-blank string `script`, the label defaulting to the control ref.
pub fn parse_script_json(v: &JsonValue) -> (r: Vec<(String, String, String)>)
    ensures
        triple_views(r@) == script_entries(*v),
{
    let mut r: Vec<(String, String, String)> = Vec::new();
    let items = match get_array(v, "scripts") {
        Some(a) => a,
        None => {
            assert(triple_views(r@) =~= Seq::<(Seq<char>, Seq<char>, Seq<char>)>::empty());
            return r;
        },
    };
    let ghost f = |i: JsonValue| script_entry(i);
    let ghost es = items@.map_values(f);
    let mut i: usize = 0;
    assert(es.take(0) =~= Seq::<Option<(Seq<char>, Seq<char>, Seq<char>)>>::empty());
    while i < items.len()
        invariant
            i <= items.len(),
            f == (|i: JsonValue| script_entry(i)),
            es == items@.map_values(f),
            triple_views(r@) == somes(es.take(i as int)),
        decreases items.len() - i,
    {
        proof {
            lemma_somes_step(es, i as int);
        }
        let item = &items[i];
        match get_str(item, "control_ref") {
            None => {},
            Some(cr) => {
                let label = match get_str(item, "label") {
                    Some(l) => l.clone(),
                    None => cr.clone(),
                };
                match get_str(item, "script") {
                    None => {},
                    Some(sc) => {
                        let t = trim_chars(chars_of(sc.as_str()).as_slice());
                        if t.len() > 0 {
                            let ghost prev = triple_views(r@);
                            r.push((cr.clone(), label, sc.clone()));
                            assert(triple_views(r@) =~= prev.push((cr@, r@[r@.len() - 1].1@, sc@)));
                        }
                    },
                }
            },
        }
        i = i + 1;
    }
    assert(es.take(items.len() as int) =~= es);
    r
}

/// The (label, script) that a fix reply gives for a control ref: that of
/// the last triple with the ref, or none.
pub open spec fn fix_for(fixed: Seq<(Seq<char>, Seq<char>, Seq<char>)>, control_ref: Seq<char>) -> Option<(Seq<char>, Seq<char>)>
    decreases fixed.len(),
{
    if fixed.len() == 0 {
        None
    } else if fixed.last().0 == control_ref {
        Some((fixed.last().1, fixed.last().2))
    } else {
        fix_for(fixed.drop_last(), control_ref)
    }
}

/// Looks up the fixed version of a broken script by its control ref; when
/// the reply fixes one ref twice, the later fix counts.
pub fn fixed_script_for(fixed: &[(String, String, String)], control_ref: &str) -> (r: Option<(String, String)>)
    ensures
        match r {
            Some(p) => fix_for(triple_views(fixed@), control_ref@) == Some((p.0@, p.1@)),
            None => fix_for(triple_views(fixed@), control_ref@) is None,
        },
{
    let mut i: usize = fixed.len();
    assert(triple_views(fixed@).take(i as int) =~= triple_views(fixed@));
    while i > 0
        invariant
            i <= fixed.len(),
            fix_for(triple_views(fixed@), control_ref@) == fix_for(triple_views(fixed@).take(i as int), control_ref@),
        decreases i,
    {
        let ghost tv = triple_views(fixed@).take(i as int);
        assert(tv.drop_last() =~= triple_views(fixed@).take(i - 1));
        if str_eq(fixed[i - 1].0.as_str(), control_ref) {
            return Some((fixed[i - 1].1.clone(), fixed[i - 1].2.clone()));
        }
        i = i - 1;
    }
    None
}

/// Reading a generated-scripts reply keeps each usable item as it was
/// written: an item of `scripts` with a string `control_ref`, a string
/// `script` that is not blank and a string `label` gives exactly that
/// (control ref, label, script); without a label, the control ref stands
/// as the label. Conversely, every triple read comes from such an item.
pub proof fn law_scripts_read_as_written(v: JsonValue, items: Seq<JsonValue>, k: int)
    requires
        array_of(field(v, "scripts"@)) == Some(items),
        0 <= k < items.len(),
    ensures
        (str_of(field(items[k], "control_ref"@)) matches Some(cr) && str_of(field(items[k], "script"@)) matches Some(sc)
            && trim(sc).len() > 0) ==> script_entries(v).contains(
            (
                str_of(field(items[k], "control_ref"@))->0,
                match str_of(field(items[k], "label"@)) {
                    Some(l) => l,
                    None => str_of(field(items[k], "control_ref"@))->0,
                },
                str_of(field(items[k], "script"@))->0,
            ),
        ),
        forall|j: int|
            0 <= j < script_entries(v).len() ==> exists|m: int|
                0 <= m < items.len() && str_of(field(items[m], "control_ref"@)) == Some(#[trigger] script_entries(v)[j].0)
                    && str_of(field(items[m], "script"@)) == Some(script_entries(v)[j].2)
                    && trim(script_entries(v)[j].2).len() > 0
                    && script_entries(v)[j].1 == (match str_of(field(items[m], "label"@)) {
                    Some(l) => l,
                    None => script_entries(v)[j].0,
                }),
{
    let xs = items.map_values(|i: JsonValue| script_entry(i));
    if str_of(field(items[k], "control_ref"@)) is Some && str_of(field(items[k], "script"@)) is Some && trim(
        str_of(field(items[k], "script"@))->0,
    ).len() > 0 {
        assert(xs[k] == script_entry(items[k]));
        crate::script_fix::lemma_somes_has(xs, k);
    }
    assert forall|j: int| 0 <= j < script_entries(v).len() implies exists|m: int|
        0 <= m < items.len() && str_of(field(items[m], "control_ref"@)) == Some(#[trigger] script_entries(v)[j].0)
            && str_of(field(items[m], "script"@)) == Some(script_entries(v)[j].2)
            && trim(script_entries(v)[j].2).len() > 0
            && script_entries(v)[j].1 == (match str_of(field(items[m], "label"@)) {
            Some(l) => l,
            None => script_entries(v)[j].0,
        }) by {
        crate::script_fix::lemma_somes_from(xs, j);
        let m = choose|m: int| 0 <= m < xs.len() && xs[m] == Some(#[trigger] somes(xs)[j]);
        assert(xs[m] == script_entry(items[m]));
    }
}

proof fn lemma_control_id_found(cs: Seq<Control>, r: Seq<char>)
    ensures
        (exists|k: int| 0 <= k < cs.len() && (#[trigger] cs[k]).control_ref@ == r) ==> exists|k: int|
            0 <= k < cs.len() && (#[trigger] cs[k]).control_ref@ == r && control_id_for(cs, r) == cs[k].id@,
        !(exists|k: int| 0 <= k < cs.len() && (#[trigger] cs[k]).control_ref@ == r) ==> control_id_for(cs, r)
            == Seq::<char>::empty(),
    decreases cs.len(),
{
    if cs.len() > 0 {
        let q = cs.drop_last();
        lemma_control_id_found(q, r);
        if cs.last().control_ref@ == r {
            assert(cs[cs.len() - 1].control_ref@ == r);
        } else {
            if exists|k: int| 0 <= k < cs.len() && (#[trigger] cs[k]).control_ref@ == r {
                let k = choose|k: int| 0 <= k < cs.len() && (#[trigger] cs[k]).control_ref@ == r;
                assert(k < cs.len() - 1);
                assert(q[k] == cs[k]);
                let k2 = choose|k2: int| 0 <= k2 < q.len() && (#[trigger] q[k2]).control_ref@ == r && control_id_for(q, r) == q[k2].id@;
                assert(cs[k2] == q[k2]);
            } else {
                assert forall|k: int| 0 <= k < q.len() implies (#[trigger] q[k]).control_ref@ != r by {
                    assert(q[k] == cs[k]);
                }
            }
        }
    }
}

/// The id found in two lists of controls one after the other: that of the
/// second when a control there has the ref, else that of the first.
proof fn lemma_control_id_concat(a: Seq<Control>, b: Seq<Control>, r: Seq<char>)
    ensures
        control_id_for(a + b, r) == (if exists|k: int| 0 <= k < b.len() && (#[trigger] b[k]).control_ref@ == r {
            control_id_for(b, r)
        } else {
            control_id_for(a, r)
        }),
    decreases b.len(),
{
    if b.len() == 0 {
        assert(a + b =~= a);
    } else {
        let bq = b.drop_last();
        assert((a + b).drop_last() =~= a + bq);
        assert((a + b).last() == b.last());
        lemma_control_id_concat(a, bq, r);
        if b.last().control_ref@ != r {
            if exists|k: int| 0 <= k < b.len() && (#[trigger] b[k]).control_ref@ == r {
                let k = choose|k: int| 0 <= k < b.len() && (#[trigger] b[k]).control_ref@ == r;
                assert(bq[k] == b[k]);
            } else {
                assert forall|k: int| 0 <= k < bq.len() implies (#[trigger] bq[k]).control_ref@ != r by {
                    assert(bq[k] == b[k]);
                }
            }
        } else {
            assert(b[b.len() - 1].control_ref@ == r);
        }
    }
}

/// When a control of the plan has the ref, the id found is the id of such
/// a control of the plan.
proof fn lemma_control_id_in_plan(plan: Seq<AuditProcessWithControls>, r: Seq<char>)
    ensures
        (exists|i: int, j: int|
            0 <= i < plan.len() && 0 <= j < plan[i].controls@.len() && (#[trigger] plan[i].controls@[j]).control_ref@ == r)
            ==> exists|i: int, j: int|
            0 <= i < plan.len() && 0 <= j < plan[i].controls@.len() && (#[trigger] plan[i].controls@[j]).control_ref@ == r
                && control_id_for(plan_controls(plan), r) == plan[i].controls@[j].id@,
        !(exists|i: int, j: int|
            0 <= i < plan.len() && 0 <= j < plan[i].controls@.len() && (#[trigger] plan[i].controls@[j]).control_ref@ == r)
            ==> control_id_for(plan_controls(plan), r) == Seq::<char>::empty(),
    decreases plan.len(),
{
    let f = |p: AuditProcessWithControls| p.controls@;
    if plan.len() == 0 {
        assert(plan.map_values(f) =~= Seq::<Seq<Control>>::empty());
        assert(plan_controls(plan) =~= Seq::<Control>::empty());
    } else {
        let q = plan.drop_last();
        let b = plan.last().controls@;
        lemma_control_id_in_plan(q, r);
        assert(plan.map_values(f) =~= q.map_values(f).push(b));
        q.map_values(f).lemma_flatten_push(b);
        assert(plan_controls(plan) == plan_controls(q) + b);
        lemma_control_id_concat(plan_controls(q), b, r);
        lemma_control_id_found(b, r);
        let last = plan.len() - 1;
        assert(plan[last].controls@ == b);
        if exists|k: int| 0 <= k < b.len() && (#[trigger] b[k]).control_ref@ == r {
            let k = choose|k: int| 0 <= k < b.len() && (#[trigger] b[k]).control_ref@ == r && control_id_for(b, r) == b[k].id@;
            assert(plan[last].controls@[k].control_ref@ == r);
        } else {
            if exists|i: int, j: int|
                0 <= i < plan.len() && 0 <= j < plan[i].controls@.len() && (#[trigger] plan[i].controls@[j]).control_ref@ == r {
                let (i, j) = choose|i: int, j: int|
                    0 <= i < plan.len() && 0 <= j < plan[i].controls@.len() && (#[trigger] plan[i].controls@[j]).control_ref@ == r;
                if i == last {
                    assert(b[j].control_ref@ == r);
                }
                assert(q[i] == plan[i]);
                assert(q[i].controls@[j].control_ref@ == r);
                let (i2, j2) = choose|i2: int, j2: int|
                    0 <= i2 < q.len() && 0 <= j2 < q[i2].controls@.len() && (#[trigger] q[i2].controls@[j2]).control_ref@ == r
                        && control_id_for(plan_controls(q), r) == q[i2].controls@[j2].id@;
                assert(q[i2] == plan[i2]);
                assert(plan[i2].controls@[j2].control_ref@ == r);
            } else {
                assert forall|i: int, j: int|
                    0 <= i < q.len() && 0 <= j < q[i].controls@.len() implies (#[trigger] q[i].controls@[j]).control_ref@ != r by {
                    assert(q[i] == plan[i]);
                }
            }
        }
    }
}

/// A script is saved under a control of the plan: when some control of the
/// plan has the given ref, the id returned is the id of a control with that
/// ref; when none has it, the id is empty.
pub proof fn law_saved_under_a_plan_control(plan: Seq<AuditProcessWithControls>, r: Seq<char>)
    ensures
        (exists|i: int, j: int|
            0 <= i < plan.len() && 0 <= j < plan[i].controls@.len() && (#[trigger] plan[i].controls@[j]).control_ref@ == r)
            ==> exists|i: int, j: int|
            0 <= i < plan.len() && 0 <= j < plan[i].controls@.len() && (#[trigger] plan[i].controls@[j]).control_ref@ == r
                && control_id_for(plan_controls(plan), r) == plan[i].controls@[j].id@,
        !(exists|i: int, j: int|
            0 <= i < plan.len() && 0 <= j < plan[i].controls@.len() && (#[trigger] plan[i].controls@[j]).control_ref@ == r)
            ==> control_id_for(plan_controls(plan), r) == Seq::<char>::empty(),
{
    lemma_control_id_in_plan(plan, r);
}

/// The id of the control with the given ref in the plan (the last one when
/// several share it), or the empty string.
pub open spec fn control_id_for(controls: Seq<Control>, control_ref: Seq<char>) -> Seq<char>
    decreases controls.len(),
{
    if controls.len() == 0 {
        Seq::empty()
    } else if controls.last().control_ref@ == control_ref {
        controls.last().id@
    } else {
        control_id_for(controls.drop_last(), control_ref)
    }
}

/// All controls of a plan, process by process.
pub open spec fn plan_controls(plan: Seq<AuditProcessWithControls>) -> Seq<Control> {
    plan.map_values(|p: AuditProcessWithControls| p.controls@).flatten()
}

/// The id a generated script is saved under: that of the control with its
/// ref (the last such control in the plan), or empty when none has it.
pub fn control_id(plan: &[AuditProcessWithControls], control_ref: &str) -> (id: String)
    ensures
        id@ == control_id_for(plan_controls(plan@), control_ref@),
{
    let ghost f = |p: AuditProcessWithControls| p.controls@;
    let mut found: Option<String> = None;
    let mut i: usize = 0;
    proof {
        crate::seqs::lemma_flatten_empty(plan@, f);
    }
    while i < plan.len()
        invariant
            i <= plan.len(),
            f == (|p: AuditProcessWithControls| p.controls@),
            (match found {
                Some(s) => s@,
                None => Seq::<char>::empty(),
            }) == control_id_for(plan@.take(i as int).map_values(f).flatten(), control_ref@),
        decreases plan.len() - i,
    {
        let cs = &plan[i].controls;
        let ghost base = plan@.take(i as int).map_values(f).flatten();
        let mut j: usize = 0;
        assert(base + cs@.take(0) =~= base);
        while j < cs.len()
            invariant
                j <= cs.len(),
                (match found {
                    Some(s) => s@,
                    None => Seq::<char>::empty(),
                }) == control_id_for(base + cs@.take(j as int), control_ref@),
            decreases cs.len() - j,
        {
            assert((base + cs@.take(j + 1)).drop_last() =~= base + cs@.take(j as int));
            assert((base + cs@.take(j + 1)).last() == cs@[j as int]);
            if str_eq(cs[j].control_ref.as_str(), control_ref) {
                found = Some(cs[j].id.clone());
            }
            j = j + 1;
        }
        proof {
            assert(cs@.take(cs.len() as int) =~= cs@);
            crate::seqs::lemma_flatten_step(plan@, f, i as int);
        }
        i = i + 1;
    }
    assert(plan@.take(plan.len() as int) =~= plan@);
    match found {
        Some(s) => s,
        None => String::new(),
    }
}


// ───────────────────────────── the correction prompt ─────────────────────────────

/// The table an error of the form `unknown column: t.c` or
/// `unknown table: t` points at.
pub open spec fn hint_table(e: Seq<char>) -> Option<Seq<char>> {
    let pc = "unknown column: "@;
    let pt = "unknown table: "@;
    if starts_with(e, pc) {
        let rest = e.skip(pc.len() as int);
        match find(rest, "."@) {
            Some(d) => Some(rest.take(d)),
            None => None,
        }
    } else if starts_with(e, pt) {
        Some(trim(e.skip(pt.len() as int)))
    } else {
        None
    }
}

/// Consecutive repeats removed (`Vec::dedup`).
pub open spec fn dedup_runs(s: Seq<Seq<char>>) -> Seq<Seq<char>>
    decreases s.len(),
{
    if s.len() == 0 {
        Seq::empty()
    } else {
        let p = dedup_runs(s.drop_last());
        if s.len() >= 2 && s[s.len() - 2] == s.last() {
            p
        } else {
            p.push(s.last())
        }
    }
}

/// The tables the errors of a broken script point at, each run of repeats
/// once.
pub open spec fn hint_tables(errs: Seq<char>) -> Seq<Seq<char>> {
    dedup_runs(somes(split(errs, ";"@).map_values(|e: Seq<char>| hint_table(trim(e)))))
}

/// The column list of a table the errors point at, or, when no table has
/// that name (in any ASCII case), the list of valid tables.
pub open spec fn col_hint(t: Seq<char>, schemas: Seq<SessionSchema>) -> Seq<char> {
    match first_index(schemas, |s: SessionSchema| eq_ignore_ascii_case(s.table_name@, t)) {
        Some(k) => "  Columns in "@ + schemas[k].table_name@ + ": "@ + join(strs(schemas[k].columns@), ", "@) + "\n"@,
        None => "  Table '"@ + t + "' does NOT exist. Use one of: "@ + join(
            schemas.map_values(|s: SessionSchema| s.table_name@),
            ", "@,
        ) + "\n"@,
    }
}

/// One broken script as presented to the model.
pub open spec fn fix_case(b: (Seq<char>, Seq<char>, Seq<char>, Seq<char>), schemas: Seq<SessionSchema>) -> Seq<char> {
    "control_ref: "@ + b.0 + "\nlabel: "@ + b.1 + "\nbroken script:\n"@ + b.2 + "\nerrors: "@ + b.3 + "\n"@
        + hint_tables(b.3).map_values(|t: Seq<char>| col_hint(t, schemas)).flatten() + "\n"@
}

pub open spec fn fix_header() -> Seq<char> {
    "The following DSL scripts failed validation. Fix ONLY the errors listed.\nCRITICAL RULES:\n- Use ONLY the table and column names listed in VALID TABLE NAMES and AVAILABLE DATA.\n- If a column you need does not exist, OMIT that ASSERT line entirely.\n- If a table does not exist, replace the entire script with:\nSAMPLE RANDOM FROM <any_valid_table>.<any_valid_col> SIZE 10\n- Never use != \u{2014} use <> instead.\n- Always write table.column \u{2014} never bare column names inside aggregates.\n\nAVAILABLE DATA:\n"@
}

pub open spec fn fix_tail() -> Seq<char> {
    "Return ONLY a JSON object: {\"scripts\": [{\"control_ref\": \"C-1\", \"label\": \"Test label\", \"script\": \"fixed DSL here\"}]}"@
}

/// The correction prompt for the scripts that failed validation.
pub open spec fn fix_prompt(
    broken: Seq<(Seq<char>, Seq<char>, Seq<char>, Seq<char>)>,
    schema_section: Seq<char>,
    table_names_section: Seq<char>,
    example_section: Seq<char>,
    schemas: Seq<SessionSchema>,
) -> Seq<char> {
    fix_header() + schema_section + table_names_section + example_section + "BROKEN SCRIPTS TO FIX:\n"@
        + broken.map_values(|b: (Seq<char>, Seq<char>, Seq<char>, Seq<char>)| fix_case(b, schemas)).flatten()
        + fix_tail()
}

/// The character sequences of string quadruples.
pub open spec fn quad_views(v: Seq<(String, String, String, String)>) -> Seq<(Seq<char>, Seq<char>, Seq<char>, Seq<char>)> {
    Seq::new(v.len(), |i: int| (v[i].0@, v[i].1@, v[i].2@, v[i].3@))
}

fn hint_table_exec(e: &[char]) -> (r: Option<Vec<char>>)
    ensures
        r matches Some(v) ==> hint_table(e@) == Some(v@),
        r is None ==> hint_table(e@) is None,
{
    let pc = chars_of("unknown column: ");
    let pt = chars_of("unknown table: ");
    if starts_with_chars(e, pc.as_slice()) {
        let rest = slice_range(e, pc.len(), e.len());
        assert(rest@ =~= e@.skip("unknown column: "@.len() as int));
        let dot = chars_of(".");
        match find_chars(rest.as_slice(), dot.as_slice()) {
            Some(d) => {
                proof {
                    crate::text::lemma_find_from(rest@, dot@, 0);
                }
                let t = slice_range(rest.as_slice(), 0, d);
                assert(t@ =~= rest@.take(d as int));
                Some(t)
            },
            None => None,
        }
    } else if starts_with_chars(e, pt.as_slice()) {
        let rest = slice_range(e, pt.len(), e.len());
        assert(rest@ =~= e@.skip("unknown table: "@.len() as int));
        Some(trim_chars(rest.as_slice()))
    } else {
        None
    }
}

fn hint_tables_exec(errs: &str) -> (r: Vec<Vec<char>>)
    ensures
        seqs_of(r@) == hint_tables(errs@),
{
    let ev = chars_of(errs);
    proof {
        reveal_strlit(";");
    }
    let pieces = split_chars(ev.as_slice(), chars_of(";").as_slice());
    let ghost f = |e: Seq<char>| hint_table(trim(e));
    let ghost es = seqs_of(pieces@).map_values(f);
    let mut r: Vec<Vec<char>> = Vec::new();
    let ghost mut all: Seq<Seq<char>> = Seq::empty();
    let mut i: usize = 0;
    assert(es.take(0) =~= Seq::<Option<Seq<char>>>::empty());
    while i < pieces.len()
        invariant
            i <= pieces.len(),
            f == (|e: Seq<char>| hint_table(trim(e))),
            es == seqs_of(pieces@).map_values(f),
            all == somes(es.take(i as int)),
            seqs_of(r@) == dedup_runs(all),
            all.len() > 0 ==> r@.len() > 0 && r@.last()@ == all.last(),
        decreases pieces.len() - i,
    {
        proof {
            lemma_somes_step(es, i as int);
        }
        let t = trim_chars(pieces[i].as_slice());
        assert(seqs_of(pieces@)[i as int] == pieces@[i as int]@);
        match hint_table_exec(t.as_slice()) {
            Some(h) => {
                let ghost prev = all;
                proof {
                    all = all.push(h@);
                    assert(all.drop_last() =~= prev);
                }
                let repeat = r.len() > 0 && same_chars(r[r.len() - 1].as_slice(), h.as_slice());
                if !repeat {
                    let ghost pr = seqs_of(r@);
                    r.push(h);
                    assert(seqs_of(r@) =~= pr.push(all.last()));
                }
            },
            None => {},
        }
        i = i + 1;
    }
    assert(es.take(pieces.len() as int) =~= es);
    r
}

fn col_hint_exec(t: &[char], schemas: &[SessionSchema]) -> (r: Vec<char>)
    ensures
        r@ == col_hint(t@, schemas@),
{
    let ghost p = |s: SessionSchema| eq_ignore_ascii_case(s.table_name@, t@);
    let mut k: usize = 0;
    while k < schemas.len()
        invariant
            k <= schemas.len(),
            p == (|s: SessionSchema| eq_ignore_ascii_case(s.table_name@, t@)),
            first_index(schemas@, p) == first_index_from(schemas@, p, k as int),
        decreases schemas.len() - k,
    {
        let nm = chars_of(schemas[k].table_name.as_str());
        if crate::unicode::eq_ignore_case_chars(nm.as_slice(), t) {
            assert(p(schemas@[k as int]));
            let mut r = chars_of("  Columns in ");
            extend_str(&mut r, schemas[k].table_name.as_str());
            extend_str(&mut r, ": ");
            let cols = join_strings(schemas[k].columns.as_slice(), ", ");
            extend_chars(&mut r, cols.as_slice());
            extend_str(&mut r, "\n");
            return r;
        }
        k = k + 1;
    }
    let ghost fname = |s: SessionSchema| s.table_name@;
    let mut names: Vec<Vec<char>> = Vec::new();
    let mut q: usize = 0;
    while q < schemas.len()
        invariant
            q <= schemas.len(),
            fname == (|s: SessionSchema| s.table_name@),
            seqs_of(names@) == schemas@.take(q as int).map_values(fname),
        decreases schemas.len() - q,
    {
        let ghost pn = seqs_of(names@);
        names.push(chars_of(schemas[q].table_name.as_str()));
        assert(seqs_of(names@) =~= pn.push(fname(schemas@[q as int])));
        assert(schemas@.take(q + 1).map_values(fname) =~= schemas@.take(q as int).map_values(fname).push(fname(schemas@[q as int])));
        q = q + 1;
    }
    assert(schemas@.take(schemas.len() as int) =~= schemas@);
    let mut r = chars_of("  Table '");
    extend_chars(&mut r, t);
    extend_str(&mut r, "' does NOT exist. Use one of: ");
    let j = join_str(names.as_slice(), ", ");
    extend_chars(&mut r, j.as_slice());
    extend_str(&mut r, "\n");
    r
}

/// Builds the one-shot correction prompt for the scripts that failed
/// validation (control ref, label, script, errors joined by `"; "`), giving
/// for every table an error points at its exact columns, or the valid tables
/// when it does not exist.
pub fn build_fix_prompt(
    broken: &[(String, String, String, String)],
    schema_section: &str,
    table_names_section: &str,
    example_section: &str,
    schemas: &[SessionSchema],
) -> (r: String)
    ensures
        r@ == fix_prompt(quad_views(broken@), schema_section@, table_names_section@, example_section@, schemas@),
{
    let ghost fc = |b: (Seq<char>, Seq<char>, Seq<char>, Seq<char>)| fix_case(b, schemas@);
    let ghost bv = quad_views(broken@);
    let mut cases: Vec<char> = Vec::new();
    proof {
        crate::seqs::lemma_flatten_empty(bv, fc);
    }
    let mut i: usize = 0;
    while i < broken.len()
        invariant
            i <= broken.len(),
            bv == quad_views(broken@),
            fc == (|b: (Seq<char>, Seq<char>, Seq<char>, Seq<char>)| fix_case(b, schemas@)),
            cases@ == bv.take(i as int).map_values(fc).flatten(),
        decreases broken.len() - i,
    {
        let b = &broken[i];
        let hints = hint_tables_exec(b.3.as_str());
        let ghost fh = |t: Seq<char>| col_hint(t, schemas@);
        let mut hint_text: Vec<char> = Vec::new();
        proof {
            crate::seqs::lemma_flatten_empty(seqs_of(hints@), fh);
        }
        let mut k: usize = 0;
        while k < hints.len()
            invariant
                k <= hints.len(),
                fh == (|t: Seq<char>| col_hint(t, schemas@)),
                hint_text@ == seqs_of(hints@).take(k as int).map_values(fh).flatten(),
            decreases hints.len() - k,
        {
            let h = col_hint_exec(hints[k].as_slice(), schemas);
            extend_chars(&mut hint_text, h.as_slice());
            proof {
                assert(seqs_of(hints@)[k as int] == hints@[k as int]@);
                crate::seqs::lemma_flatten_step(seqs_of(hints@), fh, k as int);
            }
            k = k + 1;
        }
        assert(seqs_of(hints@).take(hints.len() as int) =~= seqs_of(hints@));
        let ghost before = cases@;
        extend_str(&mut cases, "control_ref: ");
        extend_str(&mut cases, b.0.as_str());
        extend_str(&mut cases, "\nlabel: ");
        extend_str(&mut cases, b.1.as_str());
        extend_str(&mut cases, "\nbroken script:\n");
        extend_str(&mut cases, b.2.as_str());
        extend_str(&mut cases, "\nerrors: ");
        extend_str(&mut cases, b.3.as_str());
        extend_str(&mut cases, "\n");
        extend_chars(&mut cases, hint_text.as_slice());
        extend_str(&mut cases, "\n");
        proof {
            assert(bv[i as int] == (b.0@, b.1@, b.2@, b.3@));
            assert(cases@ =~= before + fc(bv[i as int]));
            crate::seqs::lemma_flatten_step(bv, fc, i as int);
        }
        i = i + 1;
    }
    assert(bv.take(broken.len() as int) =~= bv);
    let mut r = chars_of("The following DSL scripts failed validation. Fix ONLY the errors listed.\nCRITICAL RULES:\n- Use ONLY the table and column names listed in VALID TABLE NAMES and AVAILABLE DATA.\n- If a column you need does not exist, OMIT that ASSERT line entirely.\n- If a table does not exist, replace the entire script with:\nSAMPLE RANDOM FROM <any_valid_table>.<any_valid_col> SIZE 10\n- Never use != \u{2014} use <> instead.\n- Always write table.column \u{2014} never bare column names inside aggregates.\n\nAVAILABLE DATA:\n");
    extend_str(&mut r, schema_section);
    extend_str(&mut r, table_names_section);
    extend_str(&mut r, example_section);
    extend_str(&mut r, "BROKEN SCRIPTS TO FIX:\n");
    extend_chars(&mut r, cases.as_slice());
    extend_str(&mut r, "Return ONLY a JSON object: {\"scripts\": [{\"control_ref\": \"C-1\", \"label\": \"Test label\", \"script\": \"fixed DSL here\"}]}");
    string_of(r.as_slice())
}


} // verus!
