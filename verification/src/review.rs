//! The script review screen: where the pipeline stands, what the counters
//! and the status bar say, which scripts a run takes, and the context sent
//! with a question to the script assistant.
use vstd::prelude::*;
use crate::generation::{ScriptState, ScriptStatus};
use crate::model::{join_strings, pair_strs, strs, SessionSchema};
use crate::prompts::schema_entry;
use crate::order::{lt_chars, str_lt};
use crate::seqs::{first_index, first_index_from};
use crate::text::{chars_of, dec, dec_int, extend_chars, extend_str, fmt_i64, fmt_usize, join, join_str, seqs_of, str_eq, string_of, trim};

verus! {

/// Where script generation and review stand.
pub enum Phase {
    Loading,
    RelationshipReview,
    BuildingMaster,
    Generating,
    Review,
    Running { done: usize, total: usize },
    Error(String),
}

pub open spec fn approved_in(states: Seq<ScriptState>) -> nat
    decreases states.len(),
{
    if states.len() == 0 {
        0
    } else {
        approved_in(states.drop_last()) + (if states.last().status is Approved {
            1nat
        } else {
            0nat
        })
    }
}

pub open spec fn rejected_in(states: Seq<ScriptState>) -> nat
    decreases states.len(),
{
    if states.len() == 0 {
        0
    } else {
        rejected_in(states.drop_last()) + (if states.last().status is Rejected {
            1nat
        } else {
            0nat
        })
    }
}

proof fn lemma_counts_step(states: Seq<ScriptState>, i: int)
    requires
        0 <= i < states.len(),
    ensures
        approved_in(states.take(i + 1)) == approved_in(states.take(i)) + (if states[i].status is Approved { 1nat } else { 0nat }),
        rejected_in(states.take(i + 1)) == rejected_in(states.take(i)) + (if states[i].status is Rejected { 1nat } else { 0nat }),
        approved_in(states.take(i)) + rejected_in(states.take(i)) <= i,
    decreases i,
{
    assert(states.take(i + 1).drop_last() =~= states.take(i));
    if i > 0 {
        lemma_counts_step(states, i - 1);
    } else {
        assert(states.take(0) =~= Seq::<ScriptState>::empty());
    }
}

/// The numbers of approved and of rejected scripts.
pub fn decision_counts(states: &[ScriptState]) -> (r: (usize, usize))
    ensures
        r.0 == approved_in(states@),
        r.1 == rejected_in(states@),
{
    let mut a: usize = 0;
    let mut rj: usize = 0;
    let mut i: usize = 0;
    assert(states@.take(0) =~= Seq::<ScriptState>::empty());
    while i < states.len()
        invariant
            i <= states.len(),
            a == approved_in(states@.take(i as int)),
            rj == rejected_in(states@.take(i as int)),
        decreases states.len() - i,
    {
        proof {
            lemma_counts_step(states@, i as int);
        }
        match states[i].status {
            ScriptStatus::Approved => {
                a = a + 1;
            },
            ScriptStatus::Rejected => {
                rj = rj + 1;
            },
            _ => {},
        }
        i = i + 1;
    }
    assert(states@.take(states.len() as int) =~= states@);
    (a, rj)
}

/// Scripts still to decide on: all of them less the approved and rejected
/// ones (never below zero).
pub fn pending_count(total: usize, states: &[ScriptState]) -> (n: usize)
    ensures
        n as int == (if total >= approved_in(states@) + rejected_in(states@) {
            total - approved_in(states@) - rejected_in(states@)
        } else {
            0
        }),
{
    let (a, r) = decision_counts(states);
    proof {
        lemma_counts_step_total(states@);
    }
    assert(a + r <= states@.len());
    assert(states@.len() == states.len());
    let decided = a + r;
    if total >= decided {
        total - decided
    } else {
        0
    }
}

proof fn lemma_counts_step_total(states: Seq<ScriptState>)
    ensures
        approved_in(states) + rejected_in(states) <= states.len(),
{
    if states.len() > 0 {
        lemma_counts_step(states, states.len() - 1);
        assert(states.take(states.len() as int) =~= states);
        assert(states.take(states.len() - 1) =~= states.drop_last());
    }
}

/// A run may start in review when there are scripts and not all of them are
/// rejected.
pub fn can_run(phase: &Phase, total: usize, states: &[ScriptState]) -> (b: bool)
    ensures
        b == (*phase is Review && total > 0 && total > rejected_in(states@)),
{
    match phase {
        Phase::Review => {
            let (_, r) = decision_counts(states);
            total > 0 && total > r
        },
        _ => false,
    }
}

/// The status of the script with the given id (the first entry for it).
pub open spec fn state_of(states: Seq<(String, ScriptState)>, id: Seq<char>) -> Option<ScriptState> {
    match crate::seqs::first_index(states, |e: (String, ScriptState)| e.0@ == id) {
        Some(k) => Some(states[k].1),
        None => None,
    }
}

/// Whether a script is run: when some script is approved, the approved
/// ones; otherwise every one not rejected; a script without a state is run.
pub open spec fn runs(states: Seq<(String, ScriptState)>, id: Seq<char>, any_approved: bool) -> bool {
    match state_of(states, id) {
        Some(st) => if any_approved {
            st.status is Approved
        } else {
            !(st.status is Rejected)
        },
        None => true,
    }
}

pub open spec fn some_approved(states: Seq<(String, ScriptState)>) -> bool {
    exists|k: int| 0 <= k < states.len() && (#[trigger] states[k]).1.status is Approved
}

fn state_index(states: &Vec<(String, ScriptState)>, id: &String) -> (r: Option<usize>)
    ensures
        r matches Some(k) ==> k < states.len() && crate::seqs::first_index(
            states@,
            |e: (String, ScriptState)| e.0@ == id@,
        ) == Some(k as int),
        r is None ==> crate::seqs::first_index(states@, |e: (String, ScriptState)| e.0@ == id@) is None,
{
    let ghost p = |e: (String, ScriptState)| e.0@ == id@;
    let mut k: usize = 0;
    while k < states.len()
        invariant
            k <= states.len(),
            p == (|e: (String, ScriptState)| e.0@ == id@),
            crate::seqs::first_index(states@, p) == crate::seqs::first_index_from(states@, p, k as int),
        decreases states.len() - k,
    {
        if str_eq(states[k].0.as_str(), id.as_str()) {
            assert(p(states@[k as int]));
            return Some(k);
        }
        k = k + 1;
    }
    None
}

/// No two entries share a script id: the entries stand for a map from id to
/// state, and every operation on them keeps it so.
pub open spec fn distinct_keys(states: Seq<(String, ScriptState)>) -> bool {
    forall|a: int, b: int| 0 <= a < b < states.len() ==> (#[trigger] states[a]).0@ != (#[trigger] states[b]).0@
}

/// Sets the state of a script: its entry is replaced, or added at the end
/// when it has none (`HashMap::insert`).
pub fn put_state(states: &mut Vec<(String, ScriptState)>, id: String, st: ScriptState)
    requires
        distinct_keys(old(states)@),
    ensures
        distinct_keys(final(states)@),
        state_of(final(states)@, id@) == Some(st),
        forall|k: Seq<char>| k != id@ ==> #[trigger] state_of(final(states)@, k) == state_of(old(states)@, k),
{
    let ghost s0 = states@;
    let ghost pid = |e: (String, ScriptState)| e.0@ == id@;
    let ghost idv = id@;
    match state_index(states, &id) {
        Some(k) => {
            let ghost x = (id, st);
            states.set(k, (id, st));
            proof {
                crate::seqs::lemma_first_index_from(s0, pid, 0);
                assert(s0[k as int].0@ == idv);
                assert(states@ == s0.update(k as int, x));
                crate::seqs::lemma_first_index_update(s0, k as int, x, pid);
                assert forall|a: int, b: int| 0 <= a < b < states@.len() implies (#[trigger] states@[a]).0@ != (#[trigger] states@[b]).0@ by {
                    assert(s0[a].0@ != s0[b].0@);
                }
                assert forall|key: Seq<char>| key != idv implies #[trigger] state_of(states@, key) == state_of(s0, key) by {
                    let pk = |e: (String, ScriptState)| e.0@ == key;
                    crate::seqs::lemma_first_index_update(s0, k as int, x, pk);
                    crate::seqs::lemma_first_index_from(s0, pk, 0);
                }
            }
        },
        None => {
            let ghost x = (id, st);
            states.push((id, st));
            proof {
                crate::seqs::lemma_first_index_push(s0, x, pid);
                crate::seqs::lemma_first_index_from(s0, pid, 0);
                assert forall|key: Seq<char>| key != idv implies #[trigger] state_of(states@, key) == state_of(s0, key) by {
                    let pk = |e: (String, ScriptState)| e.0@ == key;
                    crate::seqs::lemma_first_index_push(s0, x, pk);
                    crate::seqs::lemma_first_index_from(s0, pk, 0);
                }
                assert forall|a: int, b: int| 0 <= a < b < states@.len() implies (#[trigger] states@[a]).0@ != (#[trigger] states@[b]).0@ by {
                    if b == s0.len() {
                        assert(!pid(s0[a]));
                    }
                }
            }
        },
    }
}

// ───────────────────────────── loading the review ─────────────────────────────

/// The text of the last saved script with the given id.
pub open spec fn saved_text(saved: Seq<(Seq<char>, Seq<char>)>, id: Seq<char>) -> Option<Seq<char>>
    decreases saved.len(),
{
    if saved.len() == 0 {
        None
    } else if saved.last().0 == id {
        Some(saved.last().1)
    } else {
        saved_text(saved.drop_last(), id)
    }
}

/// The imports need a relationship review first: none is the master record
/// and at least two are not.
pub open spec fn needs_relationship_review(schemas: Seq<SessionSchema>) -> bool {
    &&& forall|k: int| 0 <= k < schemas.len() ==> (#[trigger] schemas[k]).source_type@ != "master"@
    &&& schemas.filter(|s: SessionSchema| s.source_type@ != "master"@).len() >= 2
}

/// What opening the review screen does next.
#[derive(Debug)]
pub enum LoadAction {
    /// Show this error.
    Fail(String),
    /// Ask the user to review the relationships between the imports.
    ReviewRelationships,
    /// Review the saved scripts: their states and the script selected first.
    UseSaved(Vec<(String, ScriptState)>, Option<String>),
    /// Generate new scripts.
    Generate,
}

/// The states of the saved scripts: each `Generated` with its text, one per
/// id (a later script of the same id replacing an earlier one).
pub fn saved_states(saved: &Vec<(String, String)>) -> (r: Vec<(String, ScriptState)>)
    ensures
        distinct_keys(r@),
        forall|id: Seq<char>|
            #![trigger state_of(r@, id)]
            match saved_text(pair_strs(saved@), id) {
                Some(t) => state_of(r@, id) matches Some(st) && st.status is Generated && st.text@ == t,
                None => state_of(r@, id) is None,
            },
{
    let ghost sv = pair_strs(saved@);
    let mut r: Vec<(String, ScriptState)> = Vec::new();
    let mut i: usize = 0;
    proof {
        assert forall|id: Seq<char>| #![trigger state_of(r@, id)] state_of(r@, id) is None by {
            crate::seqs::lemma_first_index_from(r@, |e: (String, ScriptState)| e.0@ == id, 0);
        }
    }
    while i < saved.len()
        invariant
            i <= saved.len(),
            sv == pair_strs(saved@),
            distinct_keys(r@),
            forall|id: Seq<char>|
                #![trigger state_of(r@, id)]
                match saved_text(sv.take(i as int), id) {
                    Some(t) => state_of(r@, id) matches Some(st) && st.status is Generated && st.text@ == t,
                    None => state_of(r@, id) is None,
                },
        decreases saved.len() - i,
    {
        let id = saved[i].0.clone();
        let text = saved[i].1.clone();
        let ghost idv = id@;
        let ghost tv = text@;
        let ghost r0 = r@;
        proof {
            assert(sv[i as int] == (idv, tv));
            assert(sv.take(i + 1).drop_last() =~= sv.take(i as int));
            assert(sv.take(i + 1).last() == (idv, tv));
        }
        put_state(&mut r, id, ScriptState { status: ScriptStatus::Generated, text });
        proof {
            assert forall|k: Seq<char>|
                #![trigger state_of(r@, k)]
                match saved_text(sv.take(i + 1), k) {
                    Some(t) => state_of(r@, k) matches Some(st) && st.status is Generated && st.text@ == t,
                    None => state_of(r@, k) is None,
                } by {
                if k != idv {
                    assert(state_of(r@, k) == state_of(r0, k));
                }
            }
        }
        i = i + 1;
    }
    assert(sv.take(saved.len() as int) =~= sv);
    r
}

/// The message for imports that could not be loaded.
pub open spec fn load_failure(e: Seq<char>) -> Seq<char> {
    "Could not load data: "@ + e
}

/// `a` shows the error `m`.
pub open spec fn fails_with(a: LoadAction, m: Seq<char>) -> bool {
    match a {
        LoadAction::Fail(x) => x@ == m,
        _ => false,
    }
}

/// `a` reviews the saved scripts `v`: their states, the first one selected.
pub open spec fn uses_saved(a: LoadAction, v: Seq<(Seq<char>, Seq<char>)>) -> bool {
    match a {
        LoadAction::UseSaved(st, first) => {
            &&& first matches Some(f) && f@ == v[0].0
            &&& distinct_keys(st@)
            &&& forall|id: Seq<char>|
                #![trigger state_of(st@, id)]
                match saved_text(v, id) {
                    Some(t) => state_of(st@, id) matches Some(x) && x.status is Generated && x.text@ == t,
                    None => state_of(st@, id) is None,
                }
        },
        _ => false,
    }
}

/// Decides what opening the review screen does, from the loaded imports,
/// whether new scripts are asked for, and the saved scripts (`None` when
/// they were not loaded or could not be): an error when the imports cannot
/// be loaded or there are none; the relationship review when no import is
/// the master record and there are two or more; the saved scripts when they
/// may be used and there are some; otherwise generation.
pub fn load_step(schemas: &Result<Vec<SessionSchema>, String>, generate_new: bool, saved: &Option<Vec<(String, String)>>) -> (a: LoadAction)
    ensures
        match schemas {
            Err(e) => fails_with(a, load_failure(e@)),
            Ok(s) => if s.len() == 0 {
                fails_with(a, "No data imported yet. Go back to Step 4 and upload files."@)
            } else if needs_relationship_review(s@) {
                a is ReviewRelationships
            } else {
                match saved {
                    Some(v) => if !generate_new && v.len() > 0 {
                        uses_saved(a, pair_strs(v@))
                    } else {
                        a is Generate
                    },
                    None => a is Generate,
                }
            },
        },
{
    let s = match schemas {
        Err(e) => {
            let mut m = chars_of("Could not load data: ");
            extend_str(&mut m, e.as_str());
            return LoadAction::Fail(string_of(m.as_slice()));
        },
        Ok(s) => s,
    };
    if s.len() == 0 {
        return LoadAction::Fail("No data imported yet. Go back to Step 4 and upload files.".to_string());
    }
    let mut any_master = false;
    let mut others: usize = 0;
    let mut k: usize = 0;
    let ghost nm = |x: SessionSchema| x.source_type@ != "master"@;
    assert(s@.take(0).filter(nm) =~= Seq::<SessionSchema>::empty());
    while k < s.len()
        invariant
            k <= s.len(),
            nm == (|x: SessionSchema| x.source_type@ != "master"@),
            any_master == exists|q: int| 0 <= q < k && (#[trigger] s@[q]).source_type@ == "master"@,
            others == s@.take(k as int).filter(nm).len(),
            others <= k,
        decreases s.len() - k,
    {
        proof {
            reveal_strlit("master");
            assert(s@.take(k + 1).drop_last() =~= s@.take(k as int));
            s@.take(k as int).lemma_filter_push(s@[k as int], nm);
            assert(s@.take(k + 1) =~= s@.take(k as int).push(s@[k as int]));
        }
        if str_eq(s[k].source_type.as_str(), "master") {
            any_master = true;
        } else {
            others = others + 1;
        }
        k = k + 1;
    }
    assert(s@.take(s.len() as int) =~= s@);
    if !any_master && others >= 2 {
        return LoadAction::ReviewRelationships;
    }
    proof {
        if any_master {
            let q = choose|q: int| 0 <= q < s.len() && (#[trigger] s@[q]).source_type@ == "master"@;
            assert(!nm(s@[q]));
        }
    }
    if !generate_new {
        if let Some(v) = saved {
            if v.len() > 0 {
                let st = saved_states(v);
                return LoadAction::UseSaved(st, Some(v[0].0.clone()));
            }
        }
    }
    LoadAction::Generate
}

/// The positions of the scripts a run takes, in order (see `runs`).
pub fn scripts_to_run(ids: &Vec<String>, states: &Vec<(String, ScriptState)>) -> (r: Vec<usize>)
    ensures
        forall|k: int| 0 <= k < r@.len() ==> (#[trigger] r@[k]) < ids@.len(),
        forall|a: int, b: int| 0 <= a < b < r@.len() ==> #[trigger] r@[a] < #[trigger] r@[b],
        forall|i: int| 0 <= i < ids@.len() ==> (r@.contains(i as usize) <==> runs(states@, #[trigger] ids@[i]@, some_approved(states@))),
{
    let mut any = false;
    let mut k: usize = 0;
    while k < states.len()
        invariant
            k <= states.len(),
            any == exists|q: int| 0 <= q < k && (#[trigger] states@[q]).1.status is Approved,
        decreases states.len() - k,
    {
        if let ScriptStatus::Approved = states[k].1.status {
            any = true;
        }
        k = k + 1;
    }
    let mut r: Vec<usize> = Vec::new();
    let mut i: usize = 0;
    while i < ids.len()
        invariant
            i <= ids.len(),
            any == some_approved(states@),
            forall|k: int| 0 <= k < r@.len() ==> (#[trigger] r@[k]) < i,
            forall|a: int, b: int| 0 <= a < b < r@.len() ==> #[trigger] r@[a] < #[trigger] r@[b],
            forall|j: int| 0 <= j < i ==> (r@.contains(j as usize) <==> runs(states@, #[trigger] ids@[j]@, some_approved(states@))),
        decreases ids.len() - i,
    {
        let go = match state_index(states, &ids[i]) {
            Some(s) => {
                let st = &states[s].1.status;
                if any {
                    match st {
                        ScriptStatus::Approved => true,
                        _ => false,
                    }
                } else {
                    match st {
                        ScriptStatus::Rejected => false,
                        _ => true,
                    }
                }
            },
            None => true,
        };
        let ghost before = r@;
        if go {
            r.push(i);
        }
        proof {
            assert forall|j: int| 0 <= j < i + 1 implies (r@.contains(j as usize) <==> runs(states@, #[trigger] ids@[j]@, some_approved(states@))) by {
                if j < i {
                    if r@.contains(j as usize) {
                        let q = choose|q: int| 0 <= q < r@.len() && r@[q] == j as usize;
                        if q == before.len() {
                            assert(r@[q] == i);
                        } else {
                            assert(before[q] == j as usize);
                        }
                    }
                    if before.contains(j as usize) {
                        let q = choose|q: int| 0 <= q < before.len() && before[q] == j as usize;
                        assert(r@[q] == j as usize);
                    }
                } else {
                    if go {
                        assert(r@[before.len() as int] == i);
                    } else {
                        if r@.contains(j as usize) {
                            let q = choose|q: int| 0 <= q < r@.len() && r@[q] == j as usize;
                            assert(before[q] < i);
                        }
                    }
                }
            }
        }
        i = i + 1;
    }
    r
}

/// The text of the status bar.
pub open spec fn status_text(phase: Phase, progress: Seq<char>, approved: nat, total: nat) -> Seq<char> {
    match phase {
        Phase::Loading => "Loading data\u{2026}"@,
        Phase::Generating => progress,
        Phase::Running { done, total: t } => "Running scripts: "@ + dec(done as nat) + "/"@ + dec(t as nat) + "\u{2026}"@,
        Phase::Review => if approved == 0 {
            "0 of "@ + dec(total) + " algorithms approved \u{2014} approve or run directly"@
        } else {
            dec(approved) + " of "@ + dec(total) + " approved"@
        },
        Phase::Error(e) => "Error: "@ + e@,
        _ => Seq::empty(),
    }
}

/// The status bar text for the phase, the generation progress and the
/// approval counts.
pub fn status_line(phase: &Phase, progress: &str, approved: usize, total: usize) -> (s: String)
    ensures
        s@ == status_text(*phase, progress@, approved as nat, total as nat),
{
    let mut v: Vec<char> = Vec::new();
    match phase {
        Phase::Loading => {
            v = chars_of("Loading data\u{2026}");
        },
        Phase::Generating => {
            v = chars_of(progress);
        },
        Phase::Running { done, total: t } => {
            v = chars_of("Running scripts: ");
            extend_chars(&mut v, fmt_usize(*done).as_slice());
            extend_str(&mut v, "/");
            extend_chars(&mut v, fmt_usize(*t).as_slice());
            extend_str(&mut v, "\u{2026}");
        },
        Phase::Review => {
            if approved == 0 {
                v = chars_of("0 of ");
                extend_chars(&mut v, fmt_usize(total).as_slice());
                extend_str(&mut v, " algorithms approved \u{2014} approve or run directly");
            } else {
                v = fmt_usize(approved);
                extend_str(&mut v, " of ");
                extend_chars(&mut v, fmt_usize(total).as_slice());
                extend_str(&mut v, " approved");
            }
        },
        Phase::Error(e) => {
            v = chars_of("Error: ");
            extend_str(&mut v, e.as_str());
        },
        _ => {
            assert(v@ =~= Seq::<char>::empty());
        },
    }
    string_of(v.as_slice())
}

/// The row counter of the data preview: the page range and the total when
/// the total is known, else the rows shown.
pub fn row_range_label(total: usize, offset: usize, shown: usize) -> (s: String)
    requires
        offset + shown < usize::MAX,
    ensures
        s@ == (if total > 0 {
            dec(offset as nat + 1) + "-"@ + dec((offset + shown) as nat) + " of "@ + dec(total as nat) + " rows"@
        } else {
            dec(shown as nat) + " rows"@
        }),
{
    let mut v: Vec<char>;
    if total > 0 {
        v = fmt_usize(offset + 1);
        extend_str(&mut v, "-");
        extend_chars(&mut v, fmt_usize(offset + shown).as_slice());
        extend_str(&mut v, " of ");
        extend_chars(&mut v, fmt_usize(total).as_slice());
        extend_str(&mut v, " rows");
    } else {
        v = fmt_usize(shown);
        extend_str(&mut v, " rows");
    }
    string_of(v.as_slice())
}

/// Column `ci` has a cell that is not blank in some row.
pub open spec fn column_used(rows: Seq<Vec<String>>, ci: int) -> bool {
    exists|r: int| 0 <= r < rows.len() && ci < rows[r]@.len() && trim(rows[r]@[ci]@).len() > 0
}

/// The columns to show when empty columns are hidden: those with a
/// non-blank cell, in order.
pub fn used_columns(ncols: usize, rows: &Vec<Vec<String>>) -> (r: Vec<usize>)
    ensures
        forall|a: int, b: int| 0 <= a < b < r@.len() ==> #[trigger] r@[a] < #[trigger] r@[b],
        forall|k: int| 0 <= k < r@.len() ==> (#[trigger] r@[k]) < ncols,
        forall|ci: int| 0 <= ci < ncols ==> (r@.contains(ci as usize) <==> column_used(rows@, ci)),
{
    let mut r: Vec<usize> = Vec::new();
    let mut ci: usize = 0;
    while ci < ncols
        invariant
            ci <= ncols,
            forall|a: int, b: int| 0 <= a < b < r@.len() ==> #[trigger] r@[a] < #[trigger] r@[b],
            forall|k: int| 0 <= k < r@.len() ==> (#[trigger] r@[k]) < ci,
            forall|c: int| 0 <= c < ci ==> (r@.contains(c as usize) <==> column_used(rows@, c)),
        decreases ncols - ci,
    {
        let mut used = false;
        let mut ri: usize = 0;
        while ri < rows.len() && !used
            invariant
                ri <= rows.len(),
                used ==> column_used(rows@, ci as int),
                !used ==> forall|q: int| 0 <= q < ri ==> !(ci < rows@[q]@.len() && trim(rows@[q]@[ci as int]@).len() > 0),
            decreases rows.len() - ri,
        {
            if ci < rows[ri].len() {
                let t = crate::text::trim_chars(chars_of(rows[ri][ci].as_str()).as_slice());
                if t.len() > 0 {
                    used = true;
                }
            }
            ri = ri + 1;
        }
        let ghost before = r@;
        if used {
            r.push(ci);
        }
        proof {
            assert forall|c: int| 0 <= c < ci + 1 implies (r@.contains(c as usize) <==> column_used(rows@, c)) by {
                if c < ci {
                    if r@.contains(c as usize) {
                        let q = choose|q: int| 0 <= q < r@.len() && r@[q] == c as usize;
                        if q == before.len() {
                            assert(r@[q] == ci);
                        } else {
                            assert(before[q] == c as usize);
                        }
                    }
                    if before.contains(c as usize) {
                        let q = choose|q: int| 0 <= q < before.len() && before[q] == c as usize;
                        assert(r@[q] == c as usize);
                    }
                } else {
                    if used {
                        assert(r@[before.len() as int] == ci);
                    } else {
                        if r@.contains(c as usize) {
                            let q = choose|q: int| 0 <= q < r@.len() && r@[q] == c as usize;
                            assert(before[q] < ci);
                        }
                    }
                }
            }
        }
        ci = ci + 1;
    }
    r
}

/// One line of the data the assistant is told about.
pub open spec fn schema_line(s: SessionSchema) -> Seq<char> {
    "Table "@ + s.table_name@ + " ("@ + dec_int(s.row_count as int) + " rows): "@ + join(strs(s.columns@), ", "@)
}

/// The context sent with a question to the script assistant: the tables,
/// the script being edited and a short DSL reference.
pub open spec fn assistant_context_text(schemas: Seq<SessionSchema>, script: Seq<char>) -> Seq<char> {
    "You are a VinRouge audit DSL assistant. Help the auditor write and improve DSL test scripts.\n\nAvailable data:\n"@
        + join(schemas.map_values(|s: SessionSchema| schema_line(s)), "\n"@) + "\n\nCurrent script:\n"@ + script
        + "\n\nDSL reference:\n- EXCEPTIONS <table> WHERE <condition>\n- RECONCILE <field>=<value>\n- SAMPLE <table> RANDOM|INTERVAL <n>\n- TOTAL <table>.<field>\n- COUNT <table>\n\nWrap DSL code in ``` fences."@
}

/// Builds the assistant's context (see `assistant_context_text`).
pub fn assistant_context(schemas: &[SessionSchema], script: &str) -> (s: String)
    ensures
        s@ == assistant_context_text(schemas@, script@),
{
    let ghost f = |s: SessionSchema| schema_line(s);
    let mut lines: Vec<Vec<char>> = Vec::new();
    let mut i: usize = 0;
    while i < schemas.len()
        invariant
            i <= schemas.len(),
            f == (|s: SessionSchema| schema_line(s)),
            seqs_of(lines@) == schemas@.take(i as int).map_values(f),
        decreases schemas.len() - i,
    {
        let mut l = chars_of("Table ");
        extend_str(&mut l, schemas[i].table_name.as_str());
        extend_str(&mut l, " (");
        extend_chars(&mut l, fmt_i64(schemas[i].row_count).as_slice());
        extend_str(&mut l, " rows): ");
        extend_chars(&mut l, join_strings(schemas[i].columns.as_slice(), ", ").as_slice());
        let ghost p = seqs_of(lines@);
        lines.push(l);
        assert(seqs_of(lines@) =~= p.push(f(schemas@[i as int])));
        assert(schemas@.take(i + 1).map_values(f) =~= schemas@.take(i as int).map_values(f).push(f(schemas@[i as int])));
        i = i + 1;
    }
    assert(schemas@.take(schemas.len() as int) =~= schemas@);
    let mut s = chars_of(
        "You are a VinRouge audit DSL assistant. Help the auditor write and improve DSL test scripts.\n\nAvailable data:\n",
    );
    extend_chars(&mut s, join_str(lines.as_slice(), "\n").as_slice());
    extend_str(&mut s, "\n\nCurrent script:\n");
    extend_str(&mut s, script);
    extend_str(
        &mut s,
        "\n\nDSL reference:\n- EXCEPTIONS <table> WHERE <condition>\n- RECONCILE <field>=<value>\n- SAMPLE <table> RANDOM|INTERVAL <n>\n- TOTAL <table>.<field>\n- COUNT <table>\n\nWrap DSL code in ``` fences.",
    );
    string_of(s.as_slice())
}

// ───────────────────────────── order of the table tabs ─────────────────────────────

/// The tab of `a` goes strictly before that of `b`: imported tables before
/// the master record, and by name among the imported tables.
pub open spec fn tab_before(a: SessionSchema, b: SessionSchema) -> bool {
    let am = a.source_type@ == "master"@;
    let bm = b.source_type@ == "master"@;
    if am != bm {
        !am
    } else {
        str_lt(a.table_name@, b.table_name@)
    }
}

/// Inserts table `k` after every tab that does not go after it (which keeps
/// tabs that compare equal in their original order).
pub open spec fn insert_tab(order: Seq<int>, schemas: Seq<SessionSchema>, k: int) -> Seq<int> {
    match first_index(order, |e: int| tab_before(schemas[k], schemas[e])) {
        None => order.push(k),
        Some(p) => order.insert(p, k),
    }
}

/// The tabs of the first `n` tables in order: a stable sort by `tab_before`.
pub open spec fn tab_order_of(schemas: Seq<SessionSchema>, n: nat) -> Seq<int>
    decreases n,
{
    if n == 0 {
        Seq::empty()
    } else {
        insert_tab(tab_order_of(schemas, (n - 1) as nat), schemas, n - 1)
    }
}

fn is_master(s: &SessionSchema) -> (b: bool)
    ensures
        b == (s.source_type@ == "master"@),
{
    str_eq(s.source_type.as_str(), "master")
}

fn tab_before_exec(a: &SessionSchema, b: &SessionSchema) -> (r: bool)
    ensures
        r == tab_before(*a, *b),
{
    let am = is_master(a);
    let bm = is_master(b);
    if am != bm {
        !am
    } else {
        let x = chars_of(a.table_name.as_str());
        let y = chars_of(b.table_name.as_str());
        lt_chars(x.as_slice(), y.as_slice())
    }
}

/// The order in which the data-preview tabs show the tables, as indices:
/// imported tables by name, then the master record, ties kept in place.
pub fn tab_order(schemas: &[SessionSchema]) -> (r: Vec<usize>)
    ensures
        r@.map_values(|i: usize| i as int) == tab_order_of(schemas@, schemas@.len()),
{
    let mut r: Vec<usize> = Vec::new();
    let mut k: usize = 0;
    assert(r@.map_values(|i: usize| i as int) =~= Seq::<int>::empty());
    while k < schemas.len()
        invariant
            k <= schemas.len(),
            r@.map_values(|i: usize| i as int) == tab_order_of(schemas@, k as nat),
            forall|j: int| 0 <= j < r.len() ==> r@[j] < k,
        decreases schemas.len() - k,
    {
        let ghost o = r@.map_values(|i: usize| i as int);
        let ghost p = |e: int| tab_before(schemas@[k as int], schemas@[e]);
        let mut q: usize = 0;
        let mut found = false;
        while q < r.len() && !found
            invariant
                q <= r.len(),
                o == r@.map_values(|i: usize| i as int),
                p == (|e: int| tab_before(schemas@[k as int], schemas@[e])),
                k < schemas.len(),
                forall|j: int| 0 <= j < r.len() ==> r@[j] < k,
                found ==> q < r.len() && first_index(o, p) == Some(q as int),
                !found ==> first_index(o, p) == first_index_from(o, p, q as int),
            decreases r.len() - q + (if found { 0int } else { 1int }),
        {
            if tab_before_exec(&schemas[k], &schemas[r[q]]) {
                assert(p(o[q as int]));
                found = true;
            } else {
                q = q + 1;
            }
        }
        if found {
            r.insert(q, k);
            assert(r@.map_values(|i: usize| i as int) =~= o.insert(q as int, k as int));
        } else {
            r.push(k);
            assert(r@.map_values(|i: usize| i as int) =~= o.push(k as int));
        }
        k = k + 1;
    }
    r
}

proof fn lemma_tab_before_irrefl(a: SessionSchema)
    ensures
        !tab_before(a, a),
{
    crate::order::lemma_str_lt_irrefl(a.table_name@);
}

proof fn lemma_tab_before_trans(a: SessionSchema, b: SessionSchema, c: SessionSchema)
    requires
        tab_before(a, b),
        tab_before(b, c),
    ensures
        tab_before(a, c),
{
    let am = a.source_type@ == "master"@;
    let bm = b.source_type@ == "master"@;
    let cm = c.source_type@ == "master"@;
    if am == bm && bm == cm {
        crate::order::lemma_str_lt_trans(a.table_name@, b.table_name@, c.table_name@);
    }
}

/// The tabs in `order` never show a table before one that goes before it.
pub open spec fn tabs_sorted(order: Seq<int>, schemas: Seq<SessionSchema>) -> bool {
    forall|i: int, j: int| 0 <= i < j < order.len() ==> !tab_before(schemas[order[j]], schemas[order[i]])
}

/// `order` lists each of the first `n` tables exactly once.
pub open spec fn lists_each_once(order: Seq<int>, n: int) -> bool {
    &&& order.len() == n
    &&& forall|i: int| 0 <= i < order.len() ==> 0 <= #[trigger] order[i] < n
    &&& forall|i: int, j: int| 0 <= i < j < order.len() ==> order[i] != order[j]
}

proof fn lemma_insert_tab(order: Seq<int>, schemas: Seq<SessionSchema>, k: int)
    requires
        0 <= k < schemas.len(),
        lists_each_once(order, k),
        tabs_sorted(order, schemas),
    ensures
        lists_each_once(insert_tab(order, schemas, k), k + 1),
        tabs_sorted(insert_tab(order, schemas, k), schemas),
{
    let p = |e: int| tab_before(schemas[k], schemas[e]);
    crate::seqs::lemma_first_index_from(order, p, 0);
    let r = insert_tab(order, schemas, k);
    match first_index(order, p) {
        None => {
            assert(r == order.push(k));
            assert forall|i: int, j: int| 0 <= i < j < r.len() implies !tab_before(schemas[r[j]], schemas[r[i]]) by {
                if j == order.len() {
                    assert(!p(order[i]));
                } else {
                    assert(r[i] == order[i] && r[j] == order[j]);
                }
            }
            assert forall|i: int, j: int| 0 <= i < j < r.len() implies r[i] != r[j] by {
                if j == order.len() {
                    assert(0 <= order[i] < k);
                }
            }
        },
        Some(q) => {
            assert(r == order.insert(q, k));
            assert(p(order[q]));
            assert forall|i: int, j: int| 0 <= i < j < r.len() implies !tab_before(schemas[r[j]], schemas[r[i]]) by {
                if j < q {
                    assert(r[i] == order[i] && r[j] == order[j]);
                } else if j == q {
                    assert(r[j] == k && r[i] == order[i]);
                    assert(!p(order[i]));
                } else if i < q {
                    assert(r[i] == order[i] && r[j] == order[j - 1]);
                } else if i == q {
                    assert(r[i] == k && r[j] == order[j - 1]);
                    if tab_before(schemas[order[j - 1]], schemas[k]) {
                        lemma_tab_before_trans(schemas[order[j - 1]], schemas[k], schemas[order[q]]);
                        if j - 1 == q {
                            lemma_tab_before_irrefl(schemas[order[q]]);
                        }
                    }
                } else {
                    assert(r[i] == order[i - 1] && r[j] == order[j - 1]);
                }
            }
            assert forall|i: int| 0 <= i < r.len() implies 0 <= #[trigger] r[i] < k + 1 by {
                if i > q {
                    assert(r[i] == order[i - 1]);
                }
            }
            assert forall|i: int, j: int| 0 <= i < j < r.len() implies r[i] != r[j] by {
                if j < q {
                    assert(r[i] == order[i] && r[j] == order[j]);
                } else if j == q {
                    assert(r[i] == order[i]);
                } else if i < q {
                    assert(r[i] == order[i] && r[j] == order[j - 1]);
                } else if i == q {
                    assert(r[j] == order[j - 1]);
                } else {
                    assert(r[i] == order[i - 1] && r[j] == order[j - 1]);
                }
            }
        },
    }
}

/// The tabs list every table exactly once, and never a table before one
/// that goes before it: imported tables by name, the master record last.
pub proof fn law_tabs_in_order(schemas: Seq<SessionSchema>, n: nat)
    requires
        n <= schemas.len(),
    ensures
        lists_each_once(tab_order_of(schemas, n), n as int),
        tabs_sorted(tab_order_of(schemas, n), schemas),
    decreases n,
{
    if n > 0 {
        law_tabs_in_order(schemas, (n - 1) as nat);
        lemma_insert_tab(tab_order_of(schemas, (n - 1) as nat), schemas, n - 1);
    }
}

// ───────────────────────────── columns of the data preview ─────────────────────────────

/// The name a preview column is shown under: the original column that the
/// column map sends to it (the last such entry), else the key itself.
pub open spec fn display_of(col_map: Seq<(Seq<char>, Seq<char>)>, key: Seq<char>) -> Seq<char>
    decreases col_map.len(),
{
    if col_map.len() == 0 {
        key
    } else if col_map.last().1 == key {
        col_map.last().0
    } else {
        display_of(col_map.drop_last(), key)
    }
}

/// Inserts name `k` after every name that is not greater.
pub open spec fn insert_name(order: Seq<int>, names: Seq<Seq<char>>, k: int) -> Seq<int> {
    match first_index(order, |e: int| str_lt(names[k], names[e])) {
        None => order.push(k),
        Some(p) => order.insert(p, k),
    }
}

/// The first `n` names in order: a stable sort by `str_lt`.
pub open spec fn name_order_of(names: Seq<Seq<char>>, n: nat) -> Seq<int>
    decreases n,
{
    if n == 0 {
        Seq::empty()
    } else {
        insert_name(name_order_of(names, (n - 1) as nat), names, n - 1)
    }
}


/// The preview columns of a page, as (key, shown name): keys sorted by the
/// name they are shown under, ties kept in the order given.
pub open spec fn preview_columns_of(keys: Seq<Seq<char>>, col_map: Seq<(Seq<char>, Seq<char>)>) -> Seq<(Seq<char>, Seq<char>)> {
    let names = keys.map_values(|k: Seq<char>| display_of(col_map, k));
    let order = name_order_of(names, keys.len());
    order.map_values(|i: int| (keys[i], names[i]))
}

fn display_exec(col_map: &[(String, String)], key: &String) -> (r: String)
    ensures
        r@ == display_of(pair_strs(col_map@), key@),
{
    let mut i: usize = col_map.len();
    assert(pair_strs(col_map@).take(i as int) =~= pair_strs(col_map@));
    while i > 0
        invariant
            i <= col_map.len(),
            display_of(pair_strs(col_map@), key@) == display_of(pair_strs(col_map@).take(i as int), key@),
        decreases i,
    {
        assert(pair_strs(col_map@).take(i as int).drop_last() =~= pair_strs(col_map@).take(i - 1));
        if str_eq(col_map[i - 1].1.as_str(), key.as_str()) {
            return col_map[i - 1].0.clone();
        }
        i = i - 1;
    }
    key.clone()
}

/// The columns of the data preview, as (key, shown name), ordered by shown
/// name: the column map (original, key) renames keys for display.
pub fn preview_columns(keys: &[String], col_map: &[(String, String)]) -> (r: Vec<(String, String)>)
    ensures
        pair_strs(r@) == preview_columns_of(strs(keys@), pair_strs(col_map@)),
{
    let ghost names = strs(keys@).map_values(|k: Seq<char>| display_of(pair_strs(col_map@), k));
    let mut shown: Vec<Vec<char>> = Vec::new();
    let mut shown_s: Vec<String> = Vec::new();
    let mut i: usize = 0;
    while i < keys.len()
        invariant
            i <= keys.len(),
            names == strs(keys@).map_values(|k: Seq<char>| display_of(pair_strs(col_map@), k)),
            shown.len() == i,
            shown_s.len() == i,
            forall|j: int| 0 <= j < i ==> #[trigger] shown@[j]@ == names[j],
            forall|j: int| 0 <= j < i ==> #[trigger] shown_s@[j]@ == names[j],
        decreases keys.len() - i,
    {
        let d = display_exec(col_map, &keys[i]);
        shown.push(chars_of(d.as_str()));
        shown_s.push(d);
        i = i + 1;
    }
    let mut order: Vec<usize> = Vec::new();
    let mut k: usize = 0;
    assert(order@.map_values(|i: usize| i as int) =~= Seq::<int>::empty());
    while k < keys.len()
        invariant
            k <= keys.len(),
            names.len() == keys.len(),
            shown.len() == keys.len(),
            forall|j: int| 0 <= j < keys.len() ==> #[trigger] shown@[j]@ == names[j],
            order@.map_values(|i: usize| i as int) == name_order_of(names, k as nat),
            forall|j: int| 0 <= j < order.len() ==> order@[j] < k,
            shown_s.len() == keys.len(),
            forall|t: int| 0 <= t < keys.len() ==> #[trigger] shown_s@[t]@ == names[t],
        decreases keys.len() - k,
    {
        let ghost o = order@.map_values(|i: usize| i as int);
        let ghost p = |e: int| str_lt(names[k as int], names[e]);
        let mut q: usize = 0;
        let mut found = false;
        while q < order.len() && !found
            invariant
                q <= order.len(),
                o == order@.map_values(|i: usize| i as int),
                p == (|e: int| str_lt(names[k as int], names[e])),
                k < keys.len(),
                shown.len() == keys.len(),
                forall|j: int| 0 <= j < keys.len() ==> #[trigger] shown@[j]@ == names[j],
                forall|j: int| 0 <= j < order.len() ==> order@[j] < k,
                found ==> q < order.len() && first_index(o, p) == Some(q as int),
                !found ==> first_index(o, p) == first_index_from(o, p, q as int),
            decreases order.len() - q + (if found { 0int } else { 1int }),
        {
            if lt_chars(shown[k].as_slice(), shown[order[q]].as_slice()) {
                assert(p(o[q as int]));
                found = true;
            } else {
                q = q + 1;
            }
        }
        if found {
            order.insert(q, k);
            assert(order@.map_values(|i: usize| i as int) =~= o.insert(q as int, k as int));
        } else {
            order.push(k);
            assert(order@.map_values(|i: usize| i as int) =~= o.push(k as int));
        }
        k = k + 1;
    }
    let ghost ord = order@.map_values(|i: usize| i as int);
    let mut r: Vec<(String, String)> = Vec::new();
    let mut j: usize = 0;
    while j < order.len()
        invariant
            j <= order.len(),
            ord == order@.map_values(|i: usize| i as int),
            ord == name_order_of(names, keys.len() as nat),
            forall|t: int| 0 <= t < order.len() ==> order@[t] < keys.len(),
            shown_s.len() == keys.len(),
            forall|t: int| 0 <= t < keys.len() ==> #[trigger] shown_s@[t]@ == names[t],
            pair_strs(r@) == ord.take(j as int).map_values(|i: int| (strs(keys@)[i], names[i])),
        decreases order.len() - j,
    {
        let ix = order[j];
        let ghost prev = pair_strs(r@);
        r.push((keys[ix].clone(), shown_s[ix].clone()));
        proof {
            assert(pair_strs(r@) =~= prev.push((keys@[ix as int]@, names[ix as int])));
            assert(ord.take(j + 1) =~= ord.take(j as int).push(ord[j as int]));
            assert(ord.take(j + 1).map_values(|i: int| (strs(keys@)[i], names[i])) =~= ord.take(j as int).map_values(
                |i: int| (strs(keys@)[i], names[i]),
            ).push((strs(keys@)[ix as int], names[ix as int])));
        }
        j = j + 1;
    }
    assert(ord.take(order.len() as int) =~= ord);
    r
}

proof fn lemma_insert_name(order: Seq<int>, names: Seq<Seq<char>>, k: int)
    requires
        0 <= k < names.len(),
        lists_each_once(order, k),
        forall|i: int, j: int| 0 <= i < j < order.len() ==> !str_lt(names[order[j]], names[order[i]]),
    ensures
        lists_each_once(insert_name(order, names, k), k + 1),
        forall|i: int, j: int|
            0 <= i < j < insert_name(order, names, k).len() ==> !str_lt(
                names[insert_name(order, names, k)[j]],
                names[insert_name(order, names, k)[i]],
            ),
{
    let p = |e: int| str_lt(names[k], names[e]);
    crate::seqs::lemma_first_index_from(order, p, 0);
    let r = insert_name(order, names, k);
    match first_index(order, p) {
        None => {
            assert(r == order.push(k));
            assert forall|i: int, j: int| 0 <= i < j < r.len() implies !str_lt(names[r[j]], names[r[i]]) by {
                if j == order.len() {
                    assert(!p(order[i]));
                } else {
                    assert(r[i] == order[i] && r[j] == order[j]);
                }
            }
            assert forall|i: int, j: int| 0 <= i < j < r.len() implies r[i] != r[j] by {
                if j == order.len() {
                    assert(0 <= order[i] < k);
                }
            }
        },
        Some(q) => {
            assert(r == order.insert(q, k));
            assert(p(order[q]));
            assert forall|i: int, j: int| 0 <= i < j < r.len() implies !str_lt(names[r[j]], names[r[i]]) by {
                if j < q {
                    assert(r[i] == order[i] && r[j] == order[j]);
                } else if j == q {
                    assert(r[j] == k && r[i] == order[i]);
                    assert(!p(order[i]));
                } else if i < q {
                    assert(r[i] == order[i] && r[j] == order[j - 1]);
                } else if i == q {
                    assert(r[i] == k && r[j] == order[j - 1]);
                    if str_lt(names[order[j - 1]], names[k]) {
                        crate::order::lemma_str_lt_trans(names[order[j - 1]], names[k], names[order[q]]);
                        if j - 1 == q {
                            crate::order::lemma_str_lt_irrefl(names[order[q]]);
                        }
                    }
                } else {
                    assert(r[i] == order[i - 1] && r[j] == order[j - 1]);
                }
            }
            assert forall|i: int| 0 <= i < r.len() implies 0 <= #[trigger] r[i] < k + 1 by {
                if i > q {
                    assert(r[i] == order[i - 1]);
                }
            }
            assert forall|i: int, j: int| 0 <= i < j < r.len() implies r[i] != r[j] by {
                if j < q {
                    assert(r[i] == order[i] && r[j] == order[j]);
                } else if j == q {
                    assert(r[i] == order[i]);
                } else if i < q {
                    assert(r[i] == order[i] && r[j] == order[j - 1]);
                } else if i == q {
                    assert(r[j] == order[j - 1]);
                } else {
                    assert(r[i] == order[i - 1] && r[j] == order[j - 1]);
                }
            }
        },
    }
}

/// The preview lists every column exactly once, and never one whose shown
/// name sorts after that of a later column.
pub proof fn law_preview_columns_in_order(names: Seq<Seq<char>>, n: nat)
    requires
        n <= names.len(),
    ensures
        lists_each_once(name_order_of(names, n), n as int),
        forall|i: int, j: int|
            0 <= i < j < name_order_of(names, n).len() ==> !str_lt(
                names[name_order_of(names, n)[j]],
                names[name_order_of(names, n)[i]],
            ),
    decreases n,
{
    if n > 0 {
        law_preview_columns_in_order(names, (n - 1) as nat);
        lemma_insert_name(name_order_of(names, (n - 1) as nat), names, n - 1);
    }
}

} // verus!
