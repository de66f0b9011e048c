//! Changes to the audit setup (standards and scope) that the assistant
//! proposes in reply to an instruction.
use vstd::prelude::*;
use crate::text::same_chars;
use crate::json::{get_str, JsonValue, field, str_of};
use crate::model::strs;
use crate::pbc::{json_strings, string_items};
use crate::projects::{choice_views, merge_suggested_standards, named_like, suggest_standards};
use crate::seqs::{first_index, first_index_from};
use crate::unicode::{lower_str, lowercase};
use crate::text::{chars_of, extend_chars, extend_str, join, string_of, trim, trim_chars};

verus! {

/// What the assistant asked to change, read from its JSON reply.
pub struct SetupChanges {
    pub summary: String,
    pub standards_add: Vec<String>,
    pub standards_remove: Vec<String>,
    pub scope_add: Vec<String>,
    pub scope_remove: Vec<String>,
}

/// The summary shown when the reply gives none.
pub open spec fn summary_of(reply: JsonValue) -> Seq<char> {
    match str_of(field(reply, "summary"@)) {
        Some(s) => s,
        None => "Changes applied"@,
    }
}

/// Reads the changes out of the assistant's reply: the four string lists
/// (non-strings skipped, a missing list empty) and the summary.
pub fn setup_changes(reply: &JsonValue) -> (c: SetupChanges)
    ensures
        c.summary@ == summary_of(*reply),
        strs(c.standards_add@) == string_items(*reply, "standards_add"@),
        strs(c.standards_remove@) == string_items(*reply, "standards_remove"@),
        strs(c.scope_add@) == string_items(*reply, "scope_add"@),
        strs(c.scope_remove@) == string_items(*reply, "scope_remove"@),
{
    let summary = match get_str(reply, "summary") {
        Some(s) => s.clone(),
        None => {
            let d = String::from_str("Changes applied");
            proof {
                reveal_strlit("Changes applied");
            }
            d
        },
    };
    SetupChanges {
        summary,
        standards_add: json_strings(reply, "standards_add"),
        standards_remove: json_strings(reply, "standards_remove"),
        scope_add: json_strings(reply, "scope_add"),
        scope_remove: json_strings(reply, "scope_remove"),
    }
}

// ───────────────────────────── standards ─────────────────────────────

/// Unchooses a standard: the first of the same name in lowercase, if any.
pub open spec fn unchoose_standard(cur: Seq<(Seq<char>, bool)>, s: Seq<char>) -> Seq<(Seq<char>, bool)> {
    match first_index(cur, named_like(s)) {
        None => cur,
        Some(k) => cur.update(k, (cur[k].0, false)),
    }
}

pub open spec fn unchoose_standards(cur: Seq<(Seq<char>, bool)>, ss: Seq<Seq<char>>) -> Seq<(Seq<char>, bool)>
    decreases ss.len(),
{
    if ss.len() == 0 {
        cur
    } else {
        unchoose_standard(unchoose_standards(cur, ss.drop_last()), ss.last())
    }
}

/// Index of the first entry named like `s` (in lowercase), if any.
fn find_named(current: &Vec<(String, bool)>, s: &str) -> (r: Option<usize>)
    ensures
        r matches Some(f) ==> f < current.len() && first_index(choice_views(current@), named_like(s@))
            == Some(f as int),
        r is None ==> first_index(choice_views(current@), named_like(s@)) is None,
{
    let sl = lower_str(s);
    let ghost cv = choice_views(current@);
    let ghost p = named_like(s@);
    let mut k: usize = 0;
    while k < current.len()
        invariant
            k <= current.len(),
            cv == choice_views(current@),
            sl@ == lowercase(s@),
            p == named_like(s@),
            first_index(cv, p) == first_index_from(cv, p, k as int),
        decreases current.len() - k,
    {
        let l = lower_str(current[k].0.as_str());
        if same_chars(l.as_slice(), sl.as_slice()) {
            assert(p(cv[k as int]));
            return Some(k);
        }
        k = k + 1;
    }
    None
}

/// Unchooses each named standard in turn (a name not listed is ignored).
pub fn unchoose_named_standards(current: &mut Vec<(String, bool)>, removed: &[String])
    ensures
        choice_views(final(current)@) == unchoose_standards(choice_views(old(current)@), strs(removed@)),
{
    let ghost c0 = choice_views(current@);
    let mut i: usize = 0;
    assert(strs(removed@).take(0) =~= Seq::<Seq<char>>::empty());
    while i < removed.len()
        invariant
            i <= removed.len(),
            c0 == choice_views(old(current)@),
            choice_views(current@) == unchoose_standards(c0, strs(removed@).take(i as int)),
        decreases removed.len() - i,
    {
        let ghost cv = choice_views(current@);
        proof {
            assert(strs(removed@).take(i + 1).drop_last() =~= strs(removed@).take(i as int));
            assert(strs(removed@).take(i + 1).last() == removed@[i as int]@);
        }
        match find_named(current, removed[i].as_str()) {
            None => {},
            Some(f) => {
                let e = current.remove(f);
                current.insert(f, (e.0, false));
                assert(choice_views(current@) =~= cv.update(f as int, (cv[f as int].0, false)));
            },
        }
        i = i + 1;
    }
    assert(strs(removed@).take(removed.len() as int) =~= strs(removed@));
}

// ───────────────────────────── scope ─────────────────────────────

/// The scope entry has the name `s`, compared in lowercase.
pub open spec fn same_entry(s: Seq<char>) -> spec_fn(Seq<char>) -> bool {
    |x: Seq<char>| lowercase(x) == lowercase(s)
}

/// Adds a scope entry unless one of the same name in lowercase is there.
pub open spec fn add_scope_entry(cur: Seq<Seq<char>>, s: Seq<char>) -> Seq<Seq<char>> {
    if first_index(cur, same_entry(s)) is None {
        cur.push(s)
    } else {
        cur
    }
}

pub open spec fn add_scope_entries(cur: Seq<Seq<char>>, ss: Seq<Seq<char>>) -> Seq<Seq<char>>
    decreases ss.len(),
{
    if ss.len() == 0 {
        cur
    } else {
        add_scope_entry(add_scope_entries(cur, ss.drop_last()), ss.last())
    }
}

/// Drops every scope entry of the same name as `s` in lowercase.
pub open spec fn remove_scope_entry(cur: Seq<Seq<char>>, s: Seq<char>) -> Seq<Seq<char>> {
    cur.filter(|x: Seq<char>| lowercase(x) != lowercase(s))
}

pub open spec fn remove_scope_entries(cur: Seq<Seq<char>>, ss: Seq<Seq<char>>) -> Seq<Seq<char>>
    decreases ss.len(),
{
    if ss.len() == 0 {
        cur
    } else {
        remove_scope_entry(remove_scope_entries(cur, ss.drop_last()), ss.last())
    }
}

/// Whether the scope holds an entry named like `s` (in lowercase).
fn scope_has(scope: &Vec<String>, s: &str) -> (b: bool)
    ensures
        b == !(first_index(strs(scope@), same_entry(s@)) is None),
{
    let sl = lower_str(s);
    let ghost cv = strs(scope@);
    let ghost p = same_entry(s@);
    let mut k: usize = 0;
    while k < scope.len()
        invariant
            k <= scope.len(),
            cv == strs(scope@),
            sl@ == lowercase(s@),
            p == same_entry(s@),
            first_index(cv, p) == first_index_from(cv, p, k as int),
        decreases scope.len() - k,
    {
        let l = lower_str(scope[k].as_str());
        if same_chars(l.as_slice(), sl.as_slice()) {
            assert(p(cv[k as int]));
            return true;
        }
        k = k + 1;
    }
    false
}

/// Adds each entry in turn, unless the scope already names it.
pub fn add_scope_items(scope: &mut Vec<String>, added: &[String])
    ensures
        strs(final(scope)@) == add_scope_entries(strs(old(scope)@), strs(added@)),
{
    let ghost c0 = strs(scope@);
    let mut i: usize = 0;
    assert(strs(added@).take(0) =~= Seq::<Seq<char>>::empty());
    while i < added.len()
        invariant
            i <= added.len(),
            c0 == strs(old(scope)@),
            strs(scope@) == add_scope_entries(c0, strs(added@).take(i as int)),
        decreases added.len() - i,
    {
        let ghost cv = strs(scope@);
        proof {
            assert(strs(added@).take(i + 1).drop_last() =~= strs(added@).take(i as int));
            assert(strs(added@).take(i + 1).last() == added@[i as int]@);
        }
        if !scope_has(scope, added[i].as_str()) {
            scope.push(added[i].clone());
            assert(strs(scope@) =~= cv.push(added@[i as int]@));
        }
        i = i + 1;
    }
    assert(strs(added@).take(added.len() as int) =~= strs(added@));
}

/// Drops the entries named like `s`, in order.
fn remove_scope_item(scope: &mut Vec<String>, s: &str)
    ensures
        strs(final(scope)@) == remove_scope_entry(strs(old(scope)@), s@),
{
    let sl = lower_str(s);
    let ghost keep = |x: Seq<char>| lowercase(x) != lowercase(s@);
    let ghost o = strs(scope@);
    let mut r: Vec<String> = Vec::new();
    let mut i: usize = 0;
    assert(o.take(0).filter(keep) =~= Seq::<Seq<char>>::empty());
    while i < scope.len()
        invariant
            i <= scope.len(),
            o == strs(scope@),
            sl@ == lowercase(s@),
            keep == (|x: Seq<char>| lowercase(x) != lowercase(s@)),
            strs(r@) == o.take(i as int).filter(keep),
        decreases scope.len() - i,
    {
        proof {
            o.take(i as int).lemma_filter_push(o[i as int], keep);
            assert(o.take(i + 1) =~= o.take(i as int).push(o[i as int]));
        }
        let l = lower_str(scope[i].as_str());
        if !same_chars(l.as_slice(), sl.as_slice()) {
            let ghost p = strs(r@);
            r.push(scope[i].clone());
            assert(strs(r@) =~= p.push(o[i as int]));
        }
        i = i + 1;
    }
    assert(o.take(scope.len() as int) =~= o);
    *scope = r;
}

/// Drops, for each name in turn, every scope entry of that name in lowercase.
pub fn remove_scope_items(scope: &mut Vec<String>, removed: &[String])
    ensures
        strs(final(scope)@) == remove_scope_entries(strs(old(scope)@), strs(removed@)),
{
    let ghost c0 = strs(scope@);
    let mut i: usize = 0;
    assert(strs(removed@).take(0) =~= Seq::<Seq<char>>::empty());
    while i < removed.len()
        invariant
            i <= removed.len(),
            c0 == strs(old(scope)@),
            strs(scope@) == remove_scope_entries(c0, strs(removed@).take(i as int)),
        decreases removed.len() - i,
    {
        proof {
            assert(strs(removed@).take(i + 1).drop_last() =~= strs(removed@).take(i as int));
            assert(strs(removed@).take(i + 1).last() == removed@[i as int]@);
        }
        remove_scope_item(scope, removed[i].as_str());
        i = i + 1;
    }
    assert(strs(removed@).take(removed.len() as int) =~= strs(removed@));
}

// ───────────────────────────── all together ─────────────────────────────

/// Applies the changes in the order the screen does: standards added, then
/// removed; scope entries added, then removed.
pub fn apply_setup_changes(standards: &mut Vec<(String, bool)>, scope: &mut Vec<String>, c: &SetupChanges)
    ensures
        choice_views(final(standards)@) == unchoose_standards(
            suggest_standards(choice_views(old(standards)@), strs(c.standards_add@)),
            strs(c.standards_remove@),
        ),
        strs(final(scope)@) == remove_scope_entries(
            add_scope_entries(strs(old(scope)@), strs(c.scope_add@)),
            strs(c.scope_remove@),
        ),
{
    merge_suggested_standards(standards, c.standards_add.as_slice());
    unchoose_named_standards(standards, c.standards_remove.as_slice());
    add_scope_items(scope, c.scope_add.as_slice());
    remove_scope_items(scope, c.scope_remove.as_slice());
}

// ───────────────────────────── laws ─────────────────────────────

/// After the removals, no scope entry bears any removed name (in lowercase).
pub proof fn law_removed_scope_gone(cur: Seq<Seq<char>>, ss: Seq<Seq<char>>)
    ensures
        forall|i: int, j: int|
            0 <= i < ss.len() && 0 <= j < remove_scope_entries(cur, ss).len() ==> lowercase(
                #[trigger] remove_scope_entries(cur, ss)[j],
            ) != lowercase(#[trigger] ss[i]),
    decreases ss.len(),
{
    if ss.len() > 0 {
        let prev = remove_scope_entries(cur, ss.drop_last());
        law_removed_scope_gone(cur, ss.drop_last());
        let s = ss.last();
        let keep = |x: Seq<char>| lowercase(x) != lowercase(s);
        let r = remove_scope_entries(cur, ss);
        assert(r == prev.filter(keep));
        assert forall|i: int, j: int| 0 <= i < ss.len() && 0 <= j < r.len() implies lowercase(
            #[trigger] r[j],
        ) != lowercase(#[trigger] ss[i]) by {
            prev.lemma_filter_pred(keep, j);
            if i < ss.len() - 1 {
                prev.lemma_filter_contains_rev(keep, r[j]);
                let k = choose|k: int| 0 <= k < prev.len() && prev[k] == r[j];
                assert(ss.drop_last()[i] == ss[i]);
                assert(lowercase(prev[k]) != lowercase(ss.drop_last()[i]));
            }
        }
    }
}

/// After the additions, every added name is borne by some scope entry
/// (in lowercase).
pub proof fn law_added_scope_named(cur: Seq<Seq<char>>, ss: Seq<Seq<char>>)
    ensures
        forall|i: int| 0 <= i < ss.len() ==> exists|j: int|
            0 <= j < add_scope_entries(cur, ss).len() && lowercase(add_scope_entries(cur, ss)[j]) == lowercase(
                #[trigger] ss[i],
            ),
    decreases ss.len(),
{
    if ss.len() > 0 {
        let prev = add_scope_entries(cur, ss.drop_last());
        law_added_scope_named(cur, ss.drop_last());
        let s = ss.last();
        let r = add_scope_entries(cur, ss);
        crate::seqs::lemma_first_index_from(prev, same_entry(s), 0);
        assert forall|i: int| 0 <= i < ss.len() implies exists|j: int|
            0 <= j < r.len() && lowercase(r[j]) == lowercase(#[trigger] ss[i]) by {
            if i == ss.len() - 1 {
                match first_index(prev, same_entry(s)) {
                    None => {
                        assert(r[prev.len() as int] == s);
                    },
                    Some(k) => {
                        assert(same_entry(s)(prev[k]));
                        assert(r[k] == prev[k]);
                    },
                }
            } else {
                assert(ss.drop_last()[i] == ss[i]);
                let j = choose|j: int| 0 <= j < prev.len() && lowercase(prev[j]) == lowercase(ss.drop_last()[i]);
                assert(r[j] == prev[j]);
            }
        }
    }
}

/// After the removals, the standard that each removed name finds first
/// (in lowercase) is not chosen.
pub proof fn law_removed_standards_unchosen(cur: Seq<(Seq<char>, bool)>, ss: Seq<Seq<char>>)
    ensures
        forall|i: int| #![trigger ss[i]]
            0 <= i < ss.len() ==> (first_index(unchoose_standards(cur, ss), named_like(ss[i])) matches Some(
                k,
            ) ==> !unchoose_standards(cur, ss)[k].1),
    decreases ss.len(),
{
    if ss.len() > 0 {
        let prev = unchoose_standards(cur, ss.drop_last());
        law_removed_standards_unchosen(cur, ss.drop_last());
        let s = ss.last();
        let r = unchoose_standards(cur, ss);
        crate::seqs::lemma_first_index_from(prev, named_like(s), 0);
        assert forall|i: int| 0 <= i < ss.len() implies (first_index(r, named_like(#[trigger] ss[i])) matches Some(
            k,
        ) ==> !r[k].1) by {
            let q = named_like(ss[i]);
            match first_index(prev, named_like(s)) {
                None => {
                    assert(r == prev);
                    if i < ss.len() - 1 {
                        assert(ss.drop_last()[i] == ss[i]);
                    }
                },
                Some(f) => {
                    assert(r == prev.update(f, (prev[f].0, false)));
                    assert(q((prev[f].0, false)) == q(prev[f]));
                    crate::seqs::lemma_first_index_update(prev, f, (prev[f].0, false), q);
                    crate::seqs::lemma_first_index_from(prev, q, 0);
                    if i < ss.len() - 1 {
                        assert(ss.drop_last()[i] == ss[i]);
                    } else {
                        crate::seqs::lemma_first_index_update(prev, f, (prev[f].0, false), named_like(s));
                    }
                },
            }
        }
    }
}

// ───────────────────────────── entries typed by hand ─────────────────────────────

/// Adds a standard typed by the auditor (trimmed, chosen) unless it is
/// blank; tells whether it was added.
pub fn add_standard_by_hand(standards: &mut Vec<(String, bool)>, typed: &str) -> (added: bool)
    ensures
        added == (trim(typed@).len() > 0),
        added ==> choice_views(final(standards)@) == choice_views(old(standards)@).push((trim(typed@), true)),
        !added ==> final(standards)@ == old(standards)@,
{
    let t = trim_chars(chars_of(typed).as_slice());
    if t.len() == 0 {
        return false;
    }
    let ghost before = choice_views(standards@);
    standards.push((string_of(t.as_slice()), true));
    assert(choice_views(standards@) =~= before.push((trim(typed@), true)));
    true
}

/// Adds a process typed by the auditor to the scope (trimmed) unless it is
/// blank; tells whether it was added.
pub fn add_scope_by_hand(scope: &mut Vec<String>, typed: &str) -> (added: bool)
    ensures
        added == (trim(typed@).len() > 0),
        added ==> strs(final(scope)@) == strs(old(scope)@).push(trim(typed@)),
        !added ==> final(scope)@ == old(scope)@,
{
    let t = trim_chars(chars_of(typed).as_slice());
    if t.len() == 0 {
        return false;
    }
    let ghost before = strs(scope@);
    scope.push(string_of(t.as_slice()));
    assert(strs(scope@) =~= before.push(trim(typed@)));
    true
}

/// The names of the chosen standards, in order.
pub open spec fn chosen_names(v: Seq<(Seq<char>, bool)>) -> Seq<Seq<char>> {
    v.filter(|e: (Seq<char>, bool)| e.1).map_values(|e: (Seq<char>, bool)| e.0)
}

/// The request to the setup assistant: the reply format, the chosen
/// standards, the scope and the instruction.
pub open spec fn setup_prompt_text(standards: Seq<(Seq<char>, bool)>, scope: Seq<Seq<char>>, instruction: Seq<char>) -> Seq<char> {
    "You are an audit config assistant. Respond in JSON only.\nReturn: {\"summary\":\"...\",\"standards_add\":[],\"standards_remove\":[],\"scope_add\":[],\"scope_remove\":[]}\nSelected standards: "@
        + join(chosen_names(standards), ", "@) + "\nScope: "@ + join(scope, "; "@) + "\n\nInstruction: "@
        + trim(instruction)
}

/// The request to the setup assistant, or none when the instruction is
/// blank.
pub fn setup_assistant_prompt(standards: &[(String, bool)], scope: &[String], instruction: &str) -> (r: Option<String>)
    ensures
        trim(instruction@).len() == 0 ==> r is None,
        trim(instruction@).len() > 0 ==> (r matches Some(p) && p@ == setup_prompt_text(
            choice_views(standards@),
            strs(scope@),
            instruction@,
        )),
{
    let t = trim_chars(chars_of(instruction).as_slice());
    if t.len() == 0 {
        return None;
    }
    let ghost cv = choice_views(standards@);
    let ghost keep = |e: (Seq<char>, bool)| e.1;
    let ghost name = |e: (Seq<char>, bool)| e.0;
    let mut names: Vec<String> = Vec::new();
    let mut i: usize = 0;
    assert(cv.take(0).filter(keep) =~= Seq::<(Seq<char>, bool)>::empty());
    assert(strs(names@) =~= Seq::<Seq<char>>::empty());
    while i < standards.len()
        invariant
            i <= standards.len(),
            cv == choice_views(standards@),
            keep == (|e: (Seq<char>, bool)| e.1),
            name == (|e: (Seq<char>, bool)| e.0),
            strs(names@) == cv.take(i as int).filter(keep).map_values(name),
        decreases standards.len() - i,
    {
        proof {
            cv.take(i as int).lemma_filter_push(cv[i as int], keep);
            assert(cv.take(i + 1) =~= cv.take(i as int).push(cv[i as int]));
        }
        if standards[i].1 {
            let ghost p = strs(names@);
            names.push(standards[i].0.clone());
            assert(strs(names@) =~= p.push(cv[i as int].0));
            assert(cv.take(i as int).filter(keep).push(cv[i as int]).map_values(name) =~= cv.take(i as int).filter(
                keep,
            ).map_values(name).push(cv[i as int].0));
        }
        i = i + 1;
    }
    assert(cv.take(standards.len() as int) =~= cv);
    let mut r = chars_of(
        "You are an audit config assistant. Respond in JSON only.\nReturn: {\"summary\":\"...\",\"standards_add\":[],\"standards_remove\":[],\"scope_add\":[],\"scope_remove\":[]}\nSelected standards: ",
    );
    let j = crate::model::join_strings(names.as_slice(), ", ");
    extend_chars(&mut r, j.as_slice());
    extend_str(&mut r, "\nScope: ");
    let sj = crate::model::join_strings(scope, "; ");
    extend_chars(&mut r, sj.as_slice());
    extend_str(&mut r, "\n\nInstruction: ");
    extend_chars(&mut r, t.as_slice());
    Some(string_of(r.as_slice()))
}

// ───────────────────────────── the SOP document ─────────────────────────────

/// A project file that can be the SOP: a PDF or a text file.
pub open spec fn is_sop_type(t: Seq<char>) -> bool {
    t == "pdf"@ || t == "txt"@
}

/// The project file taken as the SOP: the first PDF or text file, by the
/// list of file types.
pub fn sop_file_index(file_types: &[String]) -> (r: Option<usize>)
    ensures
        r matches Some(k) ==> k < file_types.len() && crate::seqs::first_index(
            crate::model::strs(file_types@),
            |t: Seq<char>| is_sop_type(t),
        ) == Some(k as int),
        r is None ==> crate::seqs::first_index(crate::model::strs(file_types@), |t: Seq<char>| is_sop_type(t)) is None,
{
    let ghost p = |t: Seq<char>| is_sop_type(t);
    let ghost ts = crate::model::strs(file_types@);
    let mut k: usize = 0;
    while k < file_types.len()
        invariant
            k <= file_types.len(),
            p == (|t: Seq<char>| is_sop_type(t)),
            ts == crate::model::strs(file_types@),
            crate::seqs::first_index(ts, p) == crate::seqs::first_index_from(ts, p, k as int),
        decreases file_types.len() - k,
    {
        assert(ts[k as int] == file_types@[k as int]@);
        if crate::text::str_eq(file_types[k].as_str(), "pdf") || crate::text::str_eq(file_types[k].as_str(), "txt") {
            assert(p(ts[k as int]));
            return Some(k);
        }
        k = k + 1;
    }
    None
}

/// The text under the setup screen: reading the SOP, asking for one,
/// asking for the setup and the plan, or the plan is ready (the flag says
/// the last, shown as a success).
pub open spec fn setup_status_text(extracting: bool, has_sop: bool, has_plan: bool) -> (Seq<char>, bool) {
    if extracting {
        ("Reading SOP and extracting setup..."@, false)
    } else if !has_sop {
        ("Upload a SOP document to get started"@, false)
    } else if !has_plan {
        ("Configure standards and scope, then generate the audit plan"@, false)
    } else {
        ("Audit plan ready"@, true)
    }
}

/// The status text of the setup screen (see `setup_status_text`).
pub fn setup_status(extracting: bool, has_sop: bool, has_plan: bool) -> (r: (&'static str, bool))
    ensures
        (r.0@, r.1) == setup_status_text(extracting, has_sop, has_plan),
{
    if extracting {
        ("Reading SOP and extracting setup...", false)
    } else if !has_sop {
        ("Upload a SOP document to get started", false)
    } else if !has_plan {
        ("Configure standards and scope, then generate the audit plan", false)
    } else {
        ("Audit plan ready", true)
    }
}

/// The plan can be generated once there is an SOP and no plan yet.
pub fn can_generate_plan(has_sop: bool, has_plan: bool) -> (b: bool)
    ensures
        b == (has_sop && !has_plan),
{
    has_sop && !has_plan
}

} // verus!
