//! The audit-plan section of the DSL generation prompt: each control with
//! the tables its data requests point to, or the table that best matches
//! its wording.
use vstd::prelude::*;
use crate::keywords::{keywords_of, text_keywords};
use crate::model::{join_strings, strs, AuditProcessWithControls, Control, PbcGroup, PbcItem, SessionSchema};
use crate::order::{insert_sorted, lemma_sort_dedup_is, sort_dedup, strictly_sorted};
use crate::seqs::{first_index, first_index_from, lemma_flatten_empty, lemma_flatten_step};
use crate::text::{
    chars_of, contains_chars, extend_chars, extend_str, has_sub, join, join_chars, seqs_of,
    string_of,
};
use crate::unicode::{eq_ignore_ascii_case, eq_ignore_case_chars, lower_chars, lowercase};

verus! {

/// The PBC items of every group linked to the control `id`, in order.
pub open spec fn control_items(groups: Seq<PbcGroup>, id: Seq<char>) -> Seq<PbcItem>
    decreases groups.len(),
{
    if groups.len() == 0 {
        Seq::empty()
    } else {
        control_items(groups.drop_last(), id) + (if groups.last().control_id@ == id {
            groups.last().items@
        } else {
            Seq::empty()
        })
    }
}

/// Some schema has this table name, ignoring ASCII case.
pub open spec fn is_known_table(t: Seq<char>, schemas: Seq<SessionSchema>) -> bool {
    exists|k: int| 0 <= k < schemas.len() && eq_ignore_ascii_case(schemas[k].table_name@, t)
}

/// The table names of the items that name a known table, in order.
pub open spec fn linked_tables(items: Seq<PbcItem>, schemas: Seq<SessionSchema>) -> Seq<Seq<char>>
    decreases items.len(),
{
    if items.len() == 0 {
        Seq::empty()
    } else {
        let p = linked_tables(items.drop_last(), schemas);
        match items.last().table_name {
            Some(t) => if is_known_table(t@, schemas) {
                p.push(t@)
            } else {
                p
            },
            None => p,
        }
    }
}

/// The number of columns whose lowercase name contains `kw`.
pub open spec fn cols_containing(cols: Seq<Seq<char>>, kw: Seq<char>) -> int
    decreases cols.len(),
{
    if cols.len() == 0 {
        0
    } else {
        cols_containing(cols.drop_last(), kw) + (if has_sub(lowercase(cols.last()), kw) {
            1int
        } else {
            0int
        })
    }
}

/// Keyword score of a table: 10 for each keyword in its lowercase name and 3
/// for each (keyword, column) pair where the lowercase column contains it.
pub open spec fn plan_score(kws: Seq<Seq<char>>, s: SessionSchema) -> int
    decreases kws.len(),
{
    if kws.len() == 0 {
        0
    } else {
        plan_score(kws.drop_last(), s) + (if has_sub(lowercase(s.table_name@), kws.last()) {
            10int
        } else {
            0int
        }) + 3 * cols_containing(strs(s.columns@), kws.last())
    }
}

/// The index of the last maximal positive score (`Iterator::max_by_key` over
/// the positive entries returns the last of several equal maxima).
pub open spec fn last_max_positive(scores: Seq<int>) -> Option<int>
    decreases scores.len(),
{
    if scores.len() == 0 {
        None
    } else {
        let p = last_max_positive(scores.drop_last());
        let i = scores.len() - 1;
        if scores[i] > 0 && (match p {
            None => true,
            Some(k) => scores[i] >= scores[k],
        }) {
            Some(i)
        } else {
            p
        }
    }
}

/// The keywords of a control: words of its objective, description and test.
pub open spec fn control_keywords(c: Control) -> Seq<Seq<char>> {
    text_keywords(c.control_objective@ + " "@ + c.control_description@ + " "@ + c.test_procedure@)
}

/// `name (col1, col2, ...)`.
pub open spec fn table_with_cols(s: SessionSchema) -> Seq<char> {
    s.table_name@ + " ("@ + join(strs(s.columns@), ", "@) + ")"@
}

/// The exact column list of a required table (nothing if no schema has it).
pub open spec fn exact_cols_line(t: Seq<char>, schemas: Seq<SessionSchema>) -> Seq<char> {
    match first_index(schemas, |s: SessionSchema| eq_ignore_ascii_case(s.table_name@, t)) {
        Some(k) => "    Exact columns in "@ + schemas[k].table_name@ + ": "@ + join(
            strs(schemas[k].columns@),
            ", "@,
        ) + "\n"@,
        None => Seq::empty(),
    }
}

/// The table guidance for one control.
pub open spec fn tables_part(c: Control, items: Seq<PbcItem>, schemas: Seq<SessionSchema>) -> Seq<char> {
    let rt = sort_dedup(linked_tables(items, schemas));
    if rt.len() > 0 {
        "    *** REQUIRED TABLES FOR THIS CONTROL: "@ + join(rt, ", "@) + "\n"@ + rt.map_values(
            |t: Seq<char>| exact_cols_line(t, schemas),
        ).flatten()
    } else if schemas.len() > 0 {
        let kws = control_keywords(c);
        match last_max_positive(schemas.map_values(|s: SessionSchema| plan_score(kws, s))) {
            Some(k) => "    BEST MATCH TABLE: "@ + schemas[k].table_name@
                + " \u{2014} use this as the primary table.\n    Columns: "@ + join(
                strs(schemas[k].columns@),
                ", "@,
            ) + "\n"@,
            None => "    NO DIRECT TABLE MATCH \u{2014} choose the most relevant table from: "@ + join(
                schemas.map_values(|s: SessionSchema| table_with_cols(s)),
                " | "@,
            ) + "\n"@,
        }
    } else {
        Seq::empty()
    }
}

/// One data request as listed under a control.
pub open spec fn item_text(i: PbcItem) -> Seq<char> {
    match i.table_name {
        Some(tn) => i.name@ + " (table: "@ + tn@ + ", fields: "@ + join(strs(i.fields@), ", "@)
            + ")"@,
        None => i.name@ + " (fields: "@ + join(strs(i.fields@), ", "@) + ")"@,
    }
}

/// The `Data:` line of a control (nothing without data requests).
pub open spec fn data_part(items: Seq<PbcItem>) -> Seq<char> {
    if items.len() > 0 {
        "    Data: "@ + join(items.map_values(|i: PbcItem| item_text(i)), "; "@) + "\n"@
    } else {
        Seq::empty()
    }
}

/// One control of the plan section.
pub open spec fn plan_control(c: Control, groups: Seq<PbcGroup>, schemas: Seq<SessionSchema>) -> Seq<char> {
    let items = control_items(groups, c.id@);
    "  Control "@ + c.control_ref@ + ": "@ + c.control_objective@ + "\n    How it operates: "@
        + c.control_description@ + "\n    Test: "@ + c.test_procedure@ + "\n    Risk: "@
        + c.risk_level@ + "\n"@ + tables_part(c, items, schemas) + data_part(items)
}

/// One process of the plan section.
pub open spec fn plan_process(p: AuditProcessWithControls, groups: Seq<PbcGroup>, schemas: Seq<SessionSchema>) -> Seq<char> {
    "Process: "@ + p.process_name@ + "\n"@ + p.controls@.map_values(
        |c: Control| plan_control(c, groups, schemas),
    ).flatten() + "\n"@
}

/// The plan section of the DSL generation prompt.
pub open spec fn plan_section(plan: Seq<AuditProcessWithControls>, groups: Seq<PbcGroup>, schemas: Seq<SessionSchema>) -> Seq<char> {
    plan.map_values(|p: AuditProcessWithControls| plan_process(p, groups, schemas)).flatten()
}

/// The keyword scores of a control fit the `i32` they are kept in: they
/// are computed only for a control whose data requests link no table, and
/// then against every table.
pub open spec fn control_scores_fit(c: Control, groups: Seq<PbcGroup>, schemas: Seq<SessionSchema>) -> bool {
    sort_dedup(linked_tables(control_items(groups, c.id@), schemas)).len() == 0 ==> forall|k: int|
        0 <= k < schemas.len() ==> plan_score(control_keywords(c), #[trigger] schemas[k]) <= i32::MAX
}

/// Every control of the plan satisfies `control_scores_fit`.
pub open spec fn plan_scores_fit(plan: Seq<AuditProcessWithControls>, groups: Seq<PbcGroup>, schemas: Seq<SessionSchema>) -> bool {
    forall|i: int, j: int|
        0 <= i < plan.len() && 0 <= j < plan[i].controls@.len() ==> control_scores_fit(
            #[trigger] plan[i].controls@[j],
            groups,
            schemas,
        )
}

/// A score, or `i32::MAX + 1` for any larger one.
pub open spec fn capped(x: int) -> int {
    if x <= i32::MAX + 1 {
        x
    } else {
        i32::MAX + 1
    }
}

pub proof fn lemma_cols_containing_nonneg(cols: Seq<Seq<char>>, kw: Seq<char>)
    ensures
        cols_containing(cols, kw) >= 0,
    decreases cols.len(),
{
    if cols.len() > 0 {
        lemma_cols_containing_nonneg(cols.drop_last(), kw);
    }
}

// ───────────────────────────── implementation ─────────────────────────────

fn collect_control_items<'a>(groups: &'a [PbcGroup], id: &String) -> (r: Vec<&'a PbcItem>)
    ensures
        r@.map_values(|x: &PbcItem| *x) == control_items(groups@, id@),
{
    let mut r: Vec<&PbcItem> = Vec::new();
    let mut i: usize = 0;
    assert(groups@.take(0) =~= Seq::<PbcGroup>::empty());
    assert(r@.map_values(|x: &PbcItem| *x) =~= Seq::<PbcItem>::empty());
    while i < groups.len()
        invariant
            i <= groups.len(),
            r@.map_values(|x: &PbcItem| *x) == control_items(groups@.take(i as int), id@),
        decreases groups.len() - i,
    {
        proof {
            assert(groups@.take(i + 1).drop_last() =~= groups@.take(i as int));
            assert(groups@.take(i + 1).last() == groups@[i as int]);
        }
        let g = &groups[i];
        if g.control_id == *id {
            let mut j: usize = 0;
            let ghost base = r@.map_values(|x: &PbcItem| *x);
            assert(g.items@.take(0) =~= Seq::<PbcItem>::empty());
            assert(base + g.items@.take(0) =~= base);
            while j < g.items.len()
                invariant
                    j <= g.items.len(),
                    r@.map_values(|x: &PbcItem| *x) == base + g.items@.take(j as int),
                decreases g.items.len() - j,
            {
                let ghost prev = r@.map_values(|x: &PbcItem| *x);
                r.push(&g.items[j]);
                assert(r@.map_values(|x: &PbcItem| *x) =~= prev.push(g.items@[j as int]));
                assert(g.items@.take(j + 1) =~= g.items@.take(j as int).push(g.items@[j as int]));
                assert(base + g.items@.take(j + 1) =~= (base + g.items@.take(j as int)).push(g.items@[j as int]));
                j = j + 1;
            }
            assert(g.items@.take(g.items.len() as int) =~= g.items@);
        } else {
            assert(control_items(groups@.take(i + 1), id@) =~= control_items(groups@.take(i as int), id@));
        }
        i = i + 1;
    }
    assert(groups@.take(groups.len() as int) =~= groups@);
    r
}

fn known_table(t: &[char], schemas: &[SessionSchema]) -> (b: bool)
    ensures
        b == is_known_table(t@, schemas@),
{
    let mut k: usize = 0;
    while k < schemas.len()
        invariant
            k <= schemas.len(),
            forall|m: int| 0 <= m < k ==> !eq_ignore_ascii_case(#[trigger] schemas@[m].table_name@, t@),
        decreases schemas.len() - k,
    {
        let name = chars_of(schemas[k].table_name.as_str());
        if eq_ignore_case_chars(name.as_slice(), t) {
            return true;
        }
        k = k + 1;
    }
    false
}

fn required_tables(items: &Vec<&PbcItem>, schemas: &[SessionSchema]) -> (r: Vec<Vec<char>>)
    ensures
        seqs_of(r@) == sort_dedup(linked_tables(items@.map_values(|x: &PbcItem| *x), schemas@)),
{
    let ghost its = items@.map_values(|x: &PbcItem| *x);
    let mut r: Vec<Vec<char>> = Vec::new();
    let mut i: usize = 0;
    assert(its.take(0) =~= Seq::<PbcItem>::empty());
    assert(seqs_of(r@).to_set() =~= linked_tables(its.take(0), schemas@).to_set());
    while i < items.len()
        invariant
            i <= items.len(),
            its == items@.map_values(|x: &PbcItem| *x),
            strictly_sorted(seqs_of(r@)),
            seqs_of(r@).to_set() == linked_tables(its.take(i as int), schemas@).to_set(),
        decreases items.len() - i,
    {
        proof {
            assert(its.take(i + 1).drop_last() =~= its.take(i as int));
            assert(its.take(i + 1).last() == *items@[i as int]);
        }
        let item = items[i];
        match &item.table_name {
            Some(t) => {
                let tv = chars_of(t.as_str());
                if known_table(tv.as_slice(), schemas) {
                    let ghost prev = linked_tables(its.take(i as int), schemas@);
                    insert_sorted(&mut r, tv);
                    proof { crate::order::lemma_push_to_set(prev, t@); }
                }
            },
            None => {},
        }
        i = i + 1;
    }
    assert(its.take(items.len() as int) =~= its);
    proof {
        lemma_sort_dedup_is(seqs_of(r@), linked_tables(its, schemas@));
    }
    r
}

fn exact_cols_line_exec(t: &[char], schemas: &[SessionSchema]) -> (r: Vec<char>)
    ensures
        r@ == exact_cols_line(t@, schemas@),
{
    let ghost p = |s: SessionSchema| eq_ignore_ascii_case(s.table_name@, t@);
    let mut k: usize = 0;
    while k < schemas.len()
        invariant
            k <= schemas.len(),
            p == (|s: SessionSchema| eq_ignore_ascii_case(s.table_name@, t@)),
            first_index(schemas@, p) == first_index_from(schemas@, p, k as int),
        decreases schemas.len() - k,
    {
        let name = chars_of(schemas[k].table_name.as_str());
        if eq_ignore_case_chars(name.as_slice(), t) {
            let mut r = chars_of("    Exact columns in ");
            extend_str(&mut r, schemas[k].table_name.as_str());
            extend_str(&mut r, ": ");
            let cols = join_strings(schemas[k].columns.as_slice(), ", ");
            extend_chars(&mut r, cols.as_slice());
            extend_str(&mut r, "\n");
            return r;
        }
        k = k + 1;
    }
    Vec::new()
}

fn count_cols_containing(cols: &[String], kw: &[char]) -> (n: u64)
    ensures
        n == cols_containing(strs(cols@), kw@),
        n <= cols.len(),
{
    let mut n: u64 = 0;
    let mut i: usize = 0;
    assert(strs(cols@).take(0) =~= Seq::<Seq<char>>::empty());
    while i < cols.len()
        invariant
            i <= cols.len(),
            n <= i,
            n == cols_containing(strs(cols@).take(i as int), kw@),
        decreases cols.len() - i,
    {
        proof {
            assert(strs(cols@).take(i + 1).drop_last() =~= strs(cols@).take(i as int));
            assert(strs(cols@).take(i + 1).last() == cols@[i as int]@);
        }
        let c = chars_of(cols[i].as_str());
        let l = lower_chars(c.as_slice());
        if contains_chars(l.as_slice(), kw) {
            n = n + 1;
        }
        i = i + 1;
    }
    assert(strs(cols@).take(cols.len() as int) =~= strs(cols@));
    n
}

fn score_capped(kws: &Vec<Vec<char>>, s: &SessionSchema) -> (sc: u64)
    ensures
        sc == capped(plan_score(seqs_of(kws@), *s)),
{
    let tname = chars_of(s.table_name.as_str());
    let tl = lower_chars(tname.as_slice());
    let cap: u64 = 2147483648;
    let mut sc: u64 = 0;
    let mut i: usize = 0;
    assert(seqs_of(kws@).take(0) =~= Seq::<Seq<char>>::empty());
    while i < kws.len()
        invariant
            i <= kws.len(),
            cap == i32::MAX + 1,
            tl@ == lowercase(s.table_name@),
            sc == capped(plan_score(seqs_of(kws@).take(i as int), *s)),
        decreases kws.len() - i,
    {
        proof {
            assert(seqs_of(kws@).take(i + 1).drop_last() =~= seqs_of(kws@).take(i as int));
            assert(seqs_of(kws@).take(i + 1).last() == kws@[i as int]@);
            lemma_cols_containing_nonneg(strs(s.columns@), kws@[i as int]@);
        }
        let kw = &kws[i];
        let mut add: u64 = 0;
        if contains_chars(tl.as_slice(), kw.as_slice()) {
            add = 10;
        }
        let n = count_cols_containing(s.columns.as_slice(), kw.as_slice());
        if sc < cap {
            let t = sc + add;
            let m = if n > cap {
                cap
            } else {
                3 * n
            };
            sc = if t + m >= cap {
                cap
            } else {
                t + m
            };
        }
        i = i + 1;
    }
    assert(seqs_of(kws@).take(kws.len() as int) =~= seqs_of(kws@));
    sc
}

/// The keywords of a control.
fn control_keywords_exec(c: &Control) -> (r: Vec<Vec<char>>)
    ensures
        seqs_of(r@) == control_keywords(*c),
{
    let mut text = chars_of(c.control_objective.as_str());
    extend_str(&mut text, " ");
    extend_str(&mut text, c.control_description.as_str());
    extend_str(&mut text, " ");
    extend_str(&mut text, c.test_procedure.as_str());
    proof {
        reveal_strlit(" ");
    }
    keywords_of(text.as_slice())
}

fn best_match_exec(c: &Control, schemas: &[SessionSchema]) -> (r: Option<usize>)
    requires
        forall|k: int| 0 <= k < schemas@.len() ==> plan_score(control_keywords(*c), #[trigger] schemas@[k]) <= i32::MAX,
    ensures
        r matches Some(k) ==> last_max_positive(
            schemas@.map_values(|s: SessionSchema| plan_score(control_keywords(*c), s)),
        ) == Some(k as int),
        r is None ==> last_max_positive(
            schemas@.map_values(|s: SessionSchema| plan_score(control_keywords(*c), s)),
        ) is None,
        r matches Some(k) ==> k < schemas.len(),
{
    let kws = control_keywords_exec(c);
    let ghost scores = schemas@.map_values(|s: SessionSchema| plan_score(control_keywords(*c), s));
    let mut best: Option<usize> = None;
    let mut best_score: u64 = 0;
    let mut k: usize = 0;
    assert(scores.take(0) =~= Seq::<int>::empty());
    while k < schemas.len()
        invariant
            k <= schemas.len(),
            seqs_of(kws@) == control_keywords(*c),
            forall|m: int| 0 <= m < schemas@.len() ==> plan_score(control_keywords(*c), #[trigger] schemas@[m]) <= i32::MAX,
            scores == schemas@.map_values(|s: SessionSchema| plan_score(control_keywords(*c), s)),
            best matches Some(b) ==> b < k && best_score == scores[b as int] && last_max_positive(scores.take(k as int)) == Some(b as int),
            best is None ==> last_max_positive(scores.take(k as int)) is None,
        decreases schemas.len() - k,
    {
        let sc = score_capped(&kws, &schemas[k]);
        proof {
            assert(plan_score(control_keywords(*c), schemas@[k as int]) <= i32::MAX);
            assert(scores.take(k + 1).drop_last() =~= scores.take(k as int));
            assert(scores.take(k + 1)[k as int] == scores[k as int]);
            assert(scores[k as int] == sc);
        }
        let better = match best {
            None => sc > 0,
            Some(_) => sc > 0 && sc >= best_score,
        };
        if better {
            best = Some(k);
            best_score = sc;
        }
        k = k + 1;
    }
    assert(scores.take(schemas.len() as int) =~= scores);
    best
}

fn item_text_exec(i: &PbcItem) -> (r: Vec<char>)
    ensures
        r@ == item_text(*i),
{
    let mut r = chars_of(i.name.as_str());
    match &i.table_name {
        Some(tn) => {
            extend_str(&mut r, " (table: ");
            extend_str(&mut r, tn.as_str());
            extend_str(&mut r, ", fields: ");
        },
        None => {
            extend_str(&mut r, " (fields: ");
        },
    }
    let f = join_strings(i.fields.as_slice(), ", ");
    extend_chars(&mut r, f.as_slice());
    extend_str(&mut r, ")");
    r
}

fn data_part_exec(items: &Vec<&PbcItem>) -> (r: Vec<char>)
    ensures
        r@ == data_part(items@.map_values(|x: &PbcItem| *x)),
{
    let ghost its = items@.map_values(|x: &PbcItem| *x);
    if items.len() == 0 {
        return Vec::new();
    }
    let mut texts: Vec<Vec<char>> = Vec::new();
    let mut i: usize = 0;
    while i < items.len()
        invariant
            i <= items.len(),
            its == items@.map_values(|x: &PbcItem| *x),
            seqs_of(texts@) == its.take(i as int).map_values(|it: PbcItem| item_text(it)),
        decreases items.len() - i,
    {
        let t = item_text_exec(items[i]);
        let ghost prev = seqs_of(texts@);
        texts.push(t);
        proof {
            assert(seqs_of(texts@) =~= prev.push(t@));
            assert(its.take(i + 1).map_values(|it: PbcItem| item_text(it)) =~= its.take(i as int).map_values(|it: PbcItem| item_text(it)).push(item_text(its[i as int])));
        }
        i = i + 1;
    }
    assert(its.take(items.len() as int) =~= its);
    let mut r = chars_of("    Data: ");
    let sep = chars_of("; ");
    let j = join_chars(texts.as_slice(), sep.as_slice());
    extend_chars(&mut r, j.as_slice());
    extend_str(&mut r, "\n");
    r
}

fn tables_part_exec(c: &Control, items: &Vec<&PbcItem>, schemas: &[SessionSchema]) -> (r: Vec<char>)
    requires
        sort_dedup(linked_tables(items@.map_values(|x: &PbcItem| *x), schemas@)).len() == 0 ==> forall|k: int|
            0 <= k < schemas@.len() ==> plan_score(control_keywords(*c), #[trigger] schemas@[k]) <= i32::MAX,
    ensures
        r@ == tables_part(*c, items@.map_values(|x: &PbcItem| *x), schemas@),
{
    let rt = required_tables(items, schemas);
    if rt.len() > 0 {
        let mut r = chars_of("    *** REQUIRED TABLES FOR THIS CONTROL: ");
        let sep = chars_of(", ");
        let j = join_chars(rt.as_slice(), sep.as_slice());
        extend_chars(&mut r, j.as_slice());
        extend_str(&mut r, "\n");
        let ghost f = |t: Seq<char>| exact_cols_line(t, schemas@);
        let ghost rts = seqs_of(rt@);
        let mut body: Vec<char> = Vec::new();
        proof {
            lemma_flatten_empty(rts, f);
        }
        let mut i: usize = 0;
        while i < rt.len()
            invariant
                i <= rt.len(),
                rts == seqs_of(rt@),
                f == (|t: Seq<char>| exact_cols_line(t, schemas@)),
                body@ == rts.take(i as int).map_values(f).flatten(),
            decreases rt.len() - i,
        {
            let e = exact_cols_line_exec(rt[i].as_slice(), schemas);
            extend_chars(&mut body, e.as_slice());
            proof {
                assert(f(rts[i as int]) == e@);
                lemma_flatten_step(rts, f, i as int);
            }
            i = i + 1;
        }
        assert(rts.take(rt.len() as int) =~= rts);
        extend_chars(&mut r, body.as_slice());
        r
    } else if schemas.len() > 0 {
        match best_match_exec(c, schemas) {
            Some(k) => {
                let mut r = chars_of("    BEST MATCH TABLE: ");
                extend_str(&mut r, schemas[k].table_name.as_str());
                extend_str(&mut r, " \u{2014} use this as the primary table.\n    Columns: ");
                let cols = join_strings(schemas[k].columns.as_slice(), ", ");
                extend_chars(&mut r, cols.as_slice());
                extend_str(&mut r, "\n");
                r
            },
            None => {
                let mut list: Vec<Vec<char>> = Vec::new();
                let mut i: usize = 0;
                while i < schemas.len()
                    invariant
                        i <= schemas.len(),
                        seqs_of(list@) == schemas@.take(i as int).map_values(|s: SessionSchema| table_with_cols(s)),
                    decreases schemas.len() - i,
                {
                    let mut e = chars_of(schemas[i].table_name.as_str());
                    extend_str(&mut e, " (");
                    let cols = join_strings(schemas[i].columns.as_slice(), ", ");
                    extend_chars(&mut e, cols.as_slice());
                    extend_str(&mut e, ")");
                    let ghost prev = seqs_of(list@);
                    list.push(e);
                    proof {
                        assert(seqs_of(list@) =~= prev.push(table_with_cols(schemas@[i as int])));
                        assert(schemas@.take(i + 1).map_values(|s: SessionSchema| table_with_cols(s)) =~= schemas@.take(i as int).map_values(|s: SessionSchema| table_with_cols(s)).push(table_with_cols(schemas@[i as int])));
                    }
                    i = i + 1;
                }
                assert(schemas@.take(schemas.len() as int) =~= schemas@);
                let mut r = chars_of("    NO DIRECT TABLE MATCH \u{2014} choose the most relevant table from: ");
                let sep = chars_of(" | ");
                let j = join_chars(list.as_slice(), sep.as_slice());
                extend_chars(&mut r, j.as_slice());
                extend_str(&mut r, "\n");
                r
            },
        }
    } else {
        Vec::new()
    }
}

fn plan_control_exec(c: &Control, groups: &[PbcGroup], schemas: &[SessionSchema]) -> (r: Vec<char>)
    requires
        control_scores_fit(*c, groups@, schemas@),
    ensures
        r@ == plan_control(*c, groups@, schemas@),
{
    let items = collect_control_items(groups, &c.id);
    let mut r = chars_of("  Control ");
    extend_str(&mut r, c.control_ref.as_str());
    extend_str(&mut r, ": ");
    extend_str(&mut r, c.control_objective.as_str());
    extend_str(&mut r, "\n    How it operates: ");
    extend_str(&mut r, c.control_description.as_str());
    extend_str(&mut r, "\n    Test: ");
    extend_str(&mut r, c.test_procedure.as_str());
    extend_str(&mut r, "\n    Risk: ");
    extend_str(&mut r, c.risk_level.as_str());
    extend_str(&mut r, "\n");
    let t = tables_part_exec(c, &items, schemas);
    extend_chars(&mut r, t.as_slice());
    let d = data_part_exec(&items);
    extend_chars(&mut r, d.as_slice());
    r
}

/// Builds the audit-plan section of the DSL prompt: every control with its
/// test, the tables its data requests name (or the best keyword match among
/// the imported tables) and its data requests.
pub fn build_plan_section(
    plan: &[AuditProcessWithControls],
    pbc_groups: &[PbcGroup],
    schemas: &[SessionSchema],
) -> (out: String)
    requires
        plan_scores_fit(plan@, pbc_groups@, schemas@),
    ensures
        out@ == plan_section(plan@, pbc_groups@, schemas@),
{
    let ghost f = |p: AuditProcessWithControls| plan_process(p, pbc_groups@, schemas@);
    let mut out: Vec<char> = Vec::new();
    proof {
        lemma_flatten_empty(plan@, f);
    }
    let mut i: usize = 0;
    while i < plan.len()
        invariant
            i <= plan.len(),
            plan_scores_fit(plan@, pbc_groups@, schemas@),
            f == (|p: AuditProcessWithControls| plan_process(p, pbc_groups@, schemas@)),
            out@ == plan@.take(i as int).map_values(f).flatten(),
        decreases plan.len() - i,
    {
        let p = &plan[i];
        let ghost g = |c: Control| plan_control(c, pbc_groups@, schemas@);
        let mut body: Vec<char> = Vec::new();
        proof {
            lemma_flatten_empty(p.controls@, g);
        }
        let mut j: usize = 0;
        while j < p.controls.len()
            invariant
                j <= p.controls.len(),
                i < plan.len(),
                *p == plan@[i as int],
                plan_scores_fit(plan@, pbc_groups@, schemas@),
                g == (|c: Control| plan_control(c, pbc_groups@, schemas@)),
                body@ == p.controls@.take(j as int).map_values(g).flatten(),
            decreases p.controls.len() - j,
        {
            proof {
                assert(control_scores_fit(plan@[i as int].controls@[j as int], pbc_groups@, schemas@));
            }
            let e = plan_control_exec(&p.controls[j], pbc_groups, schemas);
            extend_chars(&mut body, e.as_slice());
            proof {
                assert(g(p.controls@[j as int]) == e@);
                lemma_flatten_step(p.controls@, g, j as int);
            }
            j = j + 1;
        }
        assert(p.controls@.take(p.controls.len() as int) =~= p.controls@);
        let mut e = chars_of("Process: ");
        extend_str(&mut e, p.process_name.as_str());
        extend_str(&mut e, "\n");
        extend_chars(&mut e, body.as_slice());
        extend_str(&mut e, "\n");
        extend_chars(&mut out, e.as_slice());
        proof {
            assert(f(plan@[i as int]) == e@);
            lemma_flatten_step(plan@, f, i as int);
        }
        i = i + 1;
    }
    assert(plan@.take(plan.len() as int) =~= plan@);
    string_of(out.as_slice())
}

fn control_scores_in_range(c: &Control, groups: &[PbcGroup], schemas: &[SessionSchema]) -> (b: bool)
    ensures
        b == control_scores_fit(*c, groups@, schemas@),
{
    let items = collect_control_items(groups, &c.id);
    let rt = required_tables(&items, schemas);
    if rt.len() > 0 {
        return true;
    }
    assert(seqs_of(rt@).len() == rt@.len());
    assert(sort_dedup(linked_tables(control_items(groups@, c.id@), schemas@)).len() == 0);
    let kws = control_keywords_exec(c);
    let mut k: usize = 0;
    while k < schemas.len()
        invariant
            k <= schemas.len(),
            seqs_of(kws@) == control_keywords(*c),
            sort_dedup(linked_tables(control_items(groups@, c.id@), schemas@)).len() == 0,
            forall|m: int| 0 <= m < k ==> plan_score(control_keywords(*c), #[trigger] schemas@[m]) <= i32::MAX,
        decreases schemas.len() - k,
    {
        let sc = score_capped(&kws, &schemas[k]);
        if sc > 2147483647 {
            assert(plan_score(control_keywords(*c), schemas@[k as int]) > i32::MAX);
            return false;
        }
        k = k + 1;
    }
    true
}

/// Whether every keyword score `build_plan_section` computes fits in an
/// `i32` (`plan_scores_fit`).
pub fn plan_scores_in_range(plan: &[AuditProcessWithControls], pbc_groups: &[PbcGroup], schemas: &[SessionSchema]) -> (b: bool)
    ensures
        b == plan_scores_fit(plan@, pbc_groups@, schemas@),
{
    let mut i: usize = 0;
    while i < plan.len()
        invariant
            i <= plan.len(),
            forall|a: int, b: int|
                0 <= a < i && 0 <= b < plan@[a].controls@.len() ==> control_scores_fit(
                    #[trigger] plan@[a].controls@[b],
                    pbc_groups@,
                    schemas@,
                ),
        decreases plan.len() - i,
    {
        let p = &plan[i];
        let mut j: usize = 0;
        while j < p.controls.len()
            invariant
                i < plan.len(),
                *p == plan@[i as int],
                j <= p.controls.len(),
                forall|a: int, b: int|
                    0 <= a < i && 0 <= b < plan@[a].controls@.len() ==> control_scores_fit(
                        #[trigger] plan@[a].controls@[b],
                        pbc_groups@,
                        schemas@,
                    ),
                forall|b: int| 0 <= b < j ==> control_scores_fit(#[trigger] p.controls@[b], pbc_groups@, schemas@),
            decreases p.controls.len() - j,
        {
            if !control_scores_in_range(&p.controls[j], pbc_groups, schemas) {
                assert(!control_scores_fit(plan@[i as int].controls@[j as int], pbc_groups@, schemas@));
                return false;
            }
            j = j + 1;
        }
        i = i + 1;
    }
    true
}

/// The plan section when its keyword scores fit in an `i32`, or `None`
/// when one does not (where `build_plan_section` cannot be called).
pub fn try_build_plan_section(
    plan: &[AuditProcessWithControls],
    pbc_groups: &[PbcGroup],
    schemas: &[SessionSchema],
) -> (r: Option<String>)
    ensures
        r is Some <==> plan_scores_fit(plan@, pbc_groups@, schemas@),
        r matches Some(out) ==> out@ == plan_section(plan@, pbc_groups@, schemas@),
{
    if plan_scores_in_range(plan, pbc_groups, schemas) {
        Some(build_plan_section(plan, pbc_groups, schemas))
    } else {
        None
    }
}

/// No control of the plan has the id `id`.
pub open spec fn no_control_with_id(plan: Seq<AuditProcessWithControls>, id: Seq<char>) -> bool {
    forall|i: int, j: int| 0 <= i < plan.len() && 0 <= j < plan[i].controls@.len() ==> #[trigger] plan[i].controls@[j].id@ != id
}

/// A PBC group of a control that is not in the plan leaves the plan section
/// as it was, and the condition on its scores too.
pub proof fn law_other_groups_ignored(
    plan: Seq<AuditProcessWithControls>,
    groups: Seq<PbcGroup>,
    x: PbcGroup,
    schemas: Seq<SessionSchema>,
)
    requires
        no_control_with_id(plan, x.control_id@),
    ensures
        plan_section(plan, groups.push(x), schemas) == plan_section(plan, groups, schemas),
        plan_scores_fit(plan, groups.push(x), schemas) == plan_scores_fit(plan, groups, schemas),
{
    let g2 = groups.push(x);
    assert forall|i: int, j: int| 0 <= i < plan.len() && 0 <= j < plan[i].controls@.len() implies control_items(
        g2,
        #[trigger] plan[i].controls@[j].id@,
    ) == control_items(groups, plan[i].controls@[j].id@) by {
        assert(g2.drop_last() =~= groups);
        assert(control_items(groups, plan[i].controls@[j].id@) + Seq::<PbcItem>::empty() =~= control_items(
            groups,
            plan[i].controls@[j].id@,
        ));
    }
    let f1 = |p: AuditProcessWithControls| plan_process(p, g2, schemas);
    let f2 = |p: AuditProcessWithControls| plan_process(p, groups, schemas);
    assert forall|i: int| 0 <= i < plan.len() implies #[trigger] f1(plan[i]) == f2(plan[i]) by {
        let p = plan[i];
        let h1 = |c: Control| plan_control(c, g2, schemas);
        let h2 = |c: Control| plan_control(c, groups, schemas);
        assert forall|j: int| 0 <= j < p.controls@.len() implies #[trigger] h1(p.controls@[j]) == h2(p.controls@[j]) by {
            assert(control_items(g2, plan[i].controls@[j].id@) == control_items(groups, plan[i].controls@[j].id@));
        }
        assert(p.controls@.map_values(h1) =~= p.controls@.map_values(h2));
    }
    assert(plan.map_values(f1) =~= plan.map_values(f2));
    assert forall|i: int, j: int| 0 <= i < plan.len() && 0 <= j < plan[i].controls@.len() implies control_scores_fit(
        #[trigger] plan[i].controls@[j],
        g2,
        schemas,
    ) == control_scores_fit(plan[i].controls@[j], groups, schemas) by {
        assert(control_items(g2, plan[i].controls@[j].id@) == control_items(groups, plan[i].controls@[j].id@));
    }
}

/// The plan section of an empty plan is empty, and that of two plans one
/// after the other is the section of the first followed by that of the
/// second; the condition on the scores holds of both exactly when it holds
/// of each.
pub proof fn law_plan_section_splits(
    p1: Seq<AuditProcessWithControls>,
    p2: Seq<AuditProcessWithControls>,
    groups: Seq<PbcGroup>,
    schemas: Seq<SessionSchema>,
)
    ensures
        plan_section(Seq::empty(), groups, schemas) == Seq::<char>::empty(),
        plan_section(p1 + p2, groups, schemas) == plan_section(p1, groups, schemas) + plan_section(p2, groups, schemas),
        plan_scores_fit(p1 + p2, groups, schemas) == (plan_scores_fit(p1, groups, schemas) && plan_scores_fit(
            p2,
            groups,
            schemas,
        )),
{
    let f = |p: AuditProcessWithControls| plan_process(p, groups, schemas);
    assert(Seq::<AuditProcessWithControls>::empty().map_values(f) =~= Seq::<Seq<char>>::empty());
    assert((p1 + p2).map_values(f) =~= p1.map_values(f) + p2.map_values(f));
    vstd::seq_lib::lemma_flatten_concat(p1.map_values(f), p2.map_values(f));
    let q = p1 + p2;
    if plan_scores_fit(p1, groups, schemas) && plan_scores_fit(p2, groups, schemas) {
        assert forall|i: int, j: int| 0 <= i < q.len() && 0 <= j < q[i].controls@.len() implies control_scores_fit(
            #[trigger] q[i].controls@[j],
            groups,
            schemas,
        ) by {
            if i < p1.len() {
                assert(q[i] == p1[i]);
                assert(control_scores_fit(p1[i].controls@[j], groups, schemas));
            } else {
                assert(q[i] == p2[i - p1.len()]);
                assert(control_scores_fit(p2[i - p1.len()].controls@[j], groups, schemas));
            }
        }
    }
    if plan_scores_fit(q, groups, schemas) {
        assert forall|i: int, j: int| 0 <= i < p1.len() && 0 <= j < p1[i].controls@.len() implies control_scores_fit(
            #[trigger] p1[i].controls@[j],
            groups,
            schemas,
        ) by {
            assert(q[i] == p1[i]);
            assert(control_scores_fit(q[i].controls@[j], groups, schemas));
        }
        assert forall|i: int, j: int| 0 <= i < p2.len() && 0 <= j < p2[i].controls@.len() implies control_scores_fit(
            #[trigger] p2[i].controls@[j],
            groups,
            schemas,
        ) by {
            assert(q[i + p1.len()] == p2[i]);
            assert(control_scores_fit(q[i + p1.len()].controls@[j], groups, schemas));
        }
    }
}

// ───────────────────────────── the shorter plan section ─────────────────────────────

/// One control of the shorter plan section: objective, test, risk and the
/// data requests, without table hints.
pub open spec fn brief_control(c: Control, groups: Seq<PbcGroup>) -> Seq<char> {
    "  Control "@ + c.control_ref@ + ": "@ + c.control_objective@ + "\n    Test: "@ + c.test_procedure@
        + "\n    Risk: "@ + c.risk_level@ + "\n"@ + data_part(control_items(groups, c.id@))
}

pub open spec fn brief_process(p: AuditProcessWithControls, groups: Seq<PbcGroup>) -> Seq<char> {
    "Process: "@ + p.process_name@ + "\n"@ + p.controls@.map_values(|c: Control| brief_control(c, groups)).flatten()
        + "\n"@
}

/// The plan section used when the imported tables are not described
/// control by control.
pub open spec fn brief_plan_section(plan: Seq<AuditProcessWithControls>, groups: Seq<PbcGroup>) -> Seq<char> {
    plan.map_values(|p: AuditProcessWithControls| brief_process(p, groups)).flatten()
}

fn brief_control_exec(c: &Control, groups: &[PbcGroup]) -> (r: Vec<char>)
    ensures
        r@ == brief_control(*c, groups@),
{
    let items = collect_control_items(groups, &c.id);
    let mut r = chars_of("  Control ");
    extend_str(&mut r, c.control_ref.as_str());
    extend_str(&mut r, ": ");
    extend_str(&mut r, c.control_objective.as_str());
    extend_str(&mut r, "\n    Test: ");
    extend_str(&mut r, c.test_procedure.as_str());
    extend_str(&mut r, "\n    Risk: ");
    extend_str(&mut r, c.risk_level.as_str());
    extend_str(&mut r, "\n");
    let d = data_part_exec(&items);
    extend_chars(&mut r, d.as_slice());
    r
}

/// Builds the plan section of the DSL prompt from the plan and its data
/// requests alone: each control's objective, test, risk and data requests.
pub fn build_brief_plan_section(plan: &[AuditProcessWithControls], pbc_groups: &[PbcGroup]) -> (out: String)
    ensures
        out@ == brief_plan_section(plan@, pbc_groups@),
{
    let ghost f = |p: AuditProcessWithControls| brief_process(p, pbc_groups@);
    let mut out: Vec<char> = Vec::new();
    proof {
        lemma_flatten_empty(plan@, f);
    }
    let mut i: usize = 0;
    while i < plan.len()
        invariant
            i <= plan.len(),
            f == (|p: AuditProcessWithControls| brief_process(p, pbc_groups@)),
            out@ == plan@.take(i as int).map_values(f).flatten(),
        decreases plan.len() - i,
    {
        let p = &plan[i];
        let ghost g = |c: Control| brief_control(c, pbc_groups@);
        let mut body: Vec<char> = Vec::new();
        proof {
            lemma_flatten_empty(p.controls@, g);
        }
        let mut j: usize = 0;
        while j < p.controls.len()
            invariant
                j <= p.controls.len(),
                g == (|c: Control| brief_control(c, pbc_groups@)),
                body@ == p.controls@.take(j as int).map_values(g).flatten(),
            decreases p.controls.len() - j,
        {
            let e = brief_control_exec(&p.controls[j], pbc_groups);
            extend_chars(&mut body, e.as_slice());
            proof {
                lemma_flatten_step(p.controls@, g, j as int);
            }
            j = j + 1;
        }
        assert(p.controls@.take(p.controls.len() as int) =~= p.controls@);
        let mut e = chars_of("Process: ");
        extend_str(&mut e, p.process_name.as_str());
        extend_str(&mut e, "\n");
        extend_chars(&mut e, body.as_slice());
        extend_str(&mut e, "\n");
        extend_chars(&mut out, e.as_slice());
        proof {
            assert(f(plan@[i as int]) == e@);
            lemma_flatten_step(plan@, f, i as int);
        }
        i = i + 1;
    }
    assert(plan@.take(plan.len() as int) =~= plan@);
    string_of(out.as_slice())
}

} // verus!
