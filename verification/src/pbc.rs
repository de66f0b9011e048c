//! PBC (provided-by-client) data requests: the field lists the model
//! proposes, the approvals of the auditor, and the requests read from a
//! generated list.
use vstd::prelude::*;
use crate::json::{array_of, field, get_array, get_str, str_of, JsonValue};
use crate::model::{contains_string, strs, AuditProcessWithControls, Control, PbcGroup, PbcItem};
use crate::generation::plan_controls;
use crate::seqs::{first_index, first_index_from, lemma_flatten_empty, lemma_flatten_step};
use crate::text::{chars_of, extend_chars, extend_str, fmt_usize, join, seqs_of, split, split_str, str_eq, string_of, trim, trim_chars};

verus! {

// ───────────────────────────── field lists ─────────────────────────────

/// `existing` followed by each new field not already present.
pub open spec fn merged_fields(existing: Seq<Seq<char>>, new: Seq<Seq<char>>) -> Seq<Seq<char>>
    decreases new.len(),
{
    if new.len() == 0 {
        existing
    } else {
        let p = merged_fields(existing, new.drop_last());
        if p.contains(new.last()) {
            p
        } else {
            p.push(new.last())
        }
    }
}


fn copy_strings(v: &Vec<String>) -> (r: Vec<String>)
    ensures
        strs(r@) == strs(v@),
{
    let mut r: Vec<String> = Vec::new();
    let mut i: usize = 0;
    while i < v.len()
        invariant
            i <= v.len(),
            strs(r@) == strs(v@).take(i as int),
        decreases v.len() - i,
    {
        let ghost p = strs(r@);
        r.push(v[i].clone());
        assert(strs(r@) =~= p.push(v@[i as int]@));
        assert(strs(v@).take(i + 1) =~= strs(v@).take(i as int).push(v@[i as int]@));
        i = i + 1;
    }
    assert(strs(v@).take(v.len() as int) =~= strs(v@));
    r
}

/// Adds the new fields of a request that it does not have yet, in order.
pub fn merge_fields(existing: &Vec<String>, new: &Vec<String>) -> (r: Vec<String>)
    ensures
        strs(r@) == merged_fields(strs(existing@), strs(new@)),
{
    let mut r = copy_strings(existing);
    let mut i: usize = 0;
    assert(strs(new@).take(0) =~= Seq::<Seq<char>>::empty());
    while i < new.len()
        invariant
            i <= new.len(),
            strs(r@) == merged_fields(strs(existing@), strs(new@).take(i as int)),
        decreases new.len() - i,
    {
        proof {
            assert(strs(new@).take(i + 1).drop_last() =~= strs(new@).take(i as int));
            assert(strs(new@).take(i + 1).last() == new@[i as int]@);
        }
        if !contains_string(&r, &new[i]) {
            let ghost p = strs(r@);
            r.push(new[i].clone());
            assert(strs(r@) =~= p.push(new@[i as int]@));
        }
        i = i + 1;
    }
    assert(strs(new@).take(new.len() as int) =~= strs(new@));
    r
}

/// Merging keeps the existing fields first and in order, contains every new
/// field, and adds no repeated field to a list without repeats.
pub proof fn law_merge_fields(existing: Seq<Seq<char>>, new: Seq<Seq<char>>)
    ensures
        merged_fields(existing, new).take(existing.len() as int) == existing,
        merged_fields(existing, new).len() >= existing.len(),
        forall|i: int| 0 <= i < new.len() ==> merged_fields(existing, new).contains(#[trigger] new[i]),
        existing.no_duplicates() ==> merged_fields(existing, new).no_duplicates(),
    decreases new.len(),
{
    if new.len() > 0 {
        law_merge_fields(existing, new.drop_last());
        let p = merged_fields(existing, new.drop_last());
        let r = merged_fields(existing, new);
        assert forall|i: int| 0 <= i < new.len() implies r.contains(#[trigger] new[i]) by {
            if i < new.len() - 1 {
                assert(new.drop_last()[i] == new[i]);
                assert(p.contains(new[i]));
                let k = choose|k: int| 0 <= k < p.len() && p[k] == new[i];
                assert(r[k] == new[i]);
            } else if !p.contains(new.last()) {
                assert(r[r.len() - 1] == new.last());
            }
        }
        if !p.contains(new.last()) {
            assert(r.take(existing.len() as int) =~= p.take(existing.len() as int));
        }
    }
}

/// The fields that are not to be removed, in order.
pub fn remove_fields(existing: &Vec<String>, rm: &Vec<String>) -> (r: Vec<String>)
    ensures
        strs(r@) == strs(existing@).filter(|f: Seq<char>| !strs(rm@).contains(f)),
{
    let ghost keep = |f: Seq<char>| !strs(rm@).contains(f);
    let mut r: Vec<String> = Vec::new();
    let mut i: usize = 0;
    assert(strs(existing@).take(0).filter(keep) =~= Seq::<Seq<char>>::empty());
    while i < existing.len()
        invariant
            i <= existing.len(),
            keep == (|f: Seq<char>| !strs(rm@).contains(f)),
            strs(r@) == strs(existing@).take(i as int).filter(keep),
        decreases existing.len() - i,
    {
        proof {
            strs(existing@).take(i as int).lemma_filter_push(existing@[i as int]@, keep);
            assert(strs(existing@).take(i + 1) =~= strs(existing@).take(i as int).push(existing@[i as int]@));
        }
        if !contains_string(rm, &existing[i]) {
            let ghost p = strs(r@);
            r.push(existing[i].clone());
            assert(strs(r@) =~= p.push(existing@[i as int]@));
        }
        i = i + 1;
    }
    assert(strs(existing@).take(existing.len() as int) =~= strs(existing@));
    r
}

/// The comma-separated fields typed by the auditor, trimmed, blanks dropped.
pub open spec fn field_list(text: Seq<char>) -> Seq<Seq<char>> {
    split(text, ","@).map_values(|p: Seq<char>| trim(p)).filter(|p: Seq<char>| p.len() > 0)
}

/// Reads a comma-separated field list.
pub fn parse_field_list(text: &str) -> (r: Vec<String>)
    ensures
        strs(r@) == field_list(text@),
{
    let t = chars_of(text);
    proof {
        reveal_strlit(",");
    }
    let parts = split_str(t.as_slice(), ",");
    let ghost pv = seqs_of(parts@).map_values(|p: Seq<char>| trim(p));
    let ghost nz = |p: Seq<char>| p.len() > 0;
    let mut r: Vec<String> = Vec::new();
    let mut i: usize = 0;
    assert(pv.take(0).filter(nz) =~= Seq::<Seq<char>>::empty());
    while i < parts.len()
        invariant
            i <= parts.len(),
            pv == seqs_of(parts@).map_values(|p: Seq<char>| trim(p)),
            nz == (|p: Seq<char>| p.len() > 0),
            strs(r@) == pv.take(i as int).filter(nz),
        decreases parts.len() - i,
    {
        let tr = trim_chars(parts[i].as_slice());
        proof {
            assert(pv[i as int] == trim(parts@[i as int]@));
            pv.take(i as int).lemma_filter_push(pv[i as int], nz);
            assert(pv.take(i + 1) =~= pv.take(i as int).push(pv[i as int]));
        }
        if tr.len() > 0 {
            let ghost p = strs(r@);
            r.push(string_of(tr.as_slice()));
            assert(strs(r@) =~= p.push(tr@));
        }
        i = i + 1;
    }
    assert(pv.take(parts.len() as int) =~= pv);
    r
}

// ───────────────────────────── approvals ─────────────────────────────

/// Records the approval state the backend returned for an item: an approved
/// item is listed once, an unapproved one not at all.
pub fn set_approved(ids: &mut Vec<String>, id: String, approved: bool)
    ensures
        approved ==> strs(final(ids)@) == (if strs(old(ids)@).contains(id@) {
            strs(old(ids)@)
        } else {
            strs(old(ids)@).push(id@)
        }),
        !approved ==> strs(final(ids)@) == strs(old(ids)@).filter(|x: Seq<char>| x != id@),
{
    if approved {
        if !contains_string(ids, &id) {
            let ghost p = strs(ids@);
            ids.push(id);
            assert(strs(ids@) =~= p.push(ids@.last()@));
        }
    } else {
        let ghost keep = |x: Seq<char>| x != id@;
        let ghost o = strs(ids@);
        let mut r: Vec<String> = Vec::new();
        let mut i: usize = 0;
        assert(o.take(0).filter(keep) =~= Seq::<Seq<char>>::empty());
        while i < ids.len()
            invariant
                i <= ids.len(),
                o == strs(ids@),
                keep == (|x: Seq<char>| x != id@),
                strs(r@) == o.take(i as int).filter(keep),
            decreases ids.len() - i,
        {
            proof {
                o.take(i as int).lemma_filter_push(o[i as int], keep);
                assert(o.take(i + 1) =~= o.take(i as int).push(o[i as int]));
            }
            if !str_eq(ids[i].as_str(), id.as_str()) {
                let ghost p = strs(r@);
                r.push(ids[i].clone());
                assert(strs(r@) =~= p.push(o[i as int]));
            }
            i = i + 1;
        }
        assert(o.take(ids.len() as int) =~= o);
        *ids = r;
    }
}

/// After an approval the item is listed; after a withdrawal it is not.
pub proof fn law_set_approved(ids: Seq<Seq<char>>, id: Seq<char>)
    ensures
        (if ids.contains(id) {
            ids
        } else {
            ids.push(id)
        }).contains(id),
        !ids.filter(|x: Seq<char>| x != id).contains(id),
{
    let r = if ids.contains(id) {
        ids
    } else {
        ids.push(id)
    };
    if !ids.contains(id) {
        assert(r[ids.len() as int] == id);
    }
    let f = ids.filter(|x: Seq<char>| x != id);
    if f.contains(id) {
        let k = choose|k: int| 0 <= k < f.len() && f[k] == id;
        broadcast use vstd::seq_lib::group_filter_ensures;
        assert(f[k] != id);
    }
}

/// The ids of the approved items, group by group.
pub open spec fn approved_ids(groups: Seq<PbcGroup>) -> Seq<Seq<char>> {
    groups.map_values(
        |g: PbcGroup| g.items@.filter(|i: PbcItem| i.approved).map_values(|i: PbcItem| i.id@),
    ).flatten()
}

/// Collects the ids of the approved items.
pub fn approved_item_ids(groups: &[PbcGroup]) -> (r: Vec<String>)
    ensures
        strs(r@) == approved_ids(groups@),
{
    let ghost fg = |g: PbcGroup| g.items@.filter(|i: PbcItem| i.approved).map_values(|i: PbcItem| i.id@);
    let mut r: Vec<String> = Vec::new();
    proof {
        lemma_flatten_empty(groups@, fg);
    }
    let mut gi: usize = 0;
    while gi < groups.len()
        invariant
            gi <= groups.len(),
            fg == (|g: PbcGroup| g.items@.filter(|i: PbcItem| i.approved).map_values(|i: PbcItem| i.id@)),
            strs(r@) == groups@.take(gi as int).map_values(fg).flatten(),
        decreases groups.len() - gi,
    {
        let items = &groups[gi].items;
        let ghost base = strs(r@);
        let ghost ap = |i: PbcItem| i.approved;
        let ghost idf = |i: PbcItem| i.id@;
        let mut k: usize = 0;
        assert(items@.take(0).filter(ap) =~= Seq::<PbcItem>::empty());
        assert(base + items@.take(0).filter(ap).map_values(idf) =~= base);
        while k < items.len()
            invariant
                k <= items.len(),
                ap == (|i: PbcItem| i.approved),
                idf == (|i: PbcItem| i.id@),
                strs(r@) == base + items@.take(k as int).filter(ap).map_values(idf),
            decreases items.len() - k,
        {
            proof {
                items@.take(k as int).lemma_filter_push(items@[k as int], ap);
                assert(items@.take(k + 1) =~= items@.take(k as int).push(items@[k as int]));
            }
            if items[k].approved {
                let ghost p = strs(r@);
                r.push(items[k].id.clone());
                assert(strs(r@) =~= p.push(items@[k as int].id@));
                assert(items@.take(k + 1).filter(ap).map_values(idf) =~= items@.take(k as int).filter(ap).map_values(idf).push(items@[k as int].id@));
            }
            k = k + 1;
        }
        assert(items@.take(items.len() as int) =~= items@);
        proof {
            lemma_flatten_step(groups@, fg, gi as int);
        }
        gi = gi + 1;
    }
    assert(groups@.take(groups.len() as int) =~= groups@);
    r
}

// ───────────────────────────── requests read from a generated list ─────────────────────────────

/// The strings of an array member, others skipped.
pub open spec fn string_items(v: JsonValue, key: Seq<char>) -> Seq<Seq<char>> {
    match array_of(field(v, key)) {
        Some(a) => crate::script_fix::somes(a.map_values(|x: JsonValue| str_of(Some(x)))),
        None => Seq::empty(),
    }
}

/// The strings of the array member `key` of `v` (non-strings skipped).
pub fn json_strings(v: &JsonValue, key: &str) -> (r: Vec<String>)
    ensures
        strs(r@) == string_items(*v, key@),
{
    let mut r: Vec<String> = Vec::new();
    let a = match get_array(v, key) {
        Some(a) => a,
        None => {
            assert(strs(r@) =~= Seq::<Seq<char>>::empty());
            return r;
        },
    };
    let ghost f = |x: JsonValue| str_of(Some(x));
    let ghost es = a@.map_values(f);
    let mut i: usize = 0;
    assert(es.take(0) =~= Seq::<Option<Seq<char>>>::empty());
    while i < a.len()
        invariant
            i <= a.len(),
            f == (|x: JsonValue| str_of(Some(x))),
            es == a@.map_values(f),
            strs(r@) == crate::script_fix::somes(es.take(i as int)),
        decreases a.len() - i,
    {
        proof {
            crate::script_fix::lemma_somes_step(es, i as int);
        }
        match &a[i] {
            JsonValue::Str(s) => {
                let ghost p = strs(r@);
                r.push(s.clone());
                assert(strs(r@) =~= p.push(s@));
            },
            _ => {},
        }
        i = i + 1;
    }
    assert(es.take(a.len() as int) =~= es);
    r
}

/// The string member `k1`, else `k2` (snake_case or camelCase keys).
pub open spec fn either_str(v: JsonValue, k1: Seq<char>, k2: Seq<char>) -> Option<Seq<char>> {
    match str_of(field(v, k1)) {
        Some(s) => Some(s),
        None => str_of(field(v, k2)),
    }
}

fn either_str_exec(v: &JsonValue, k1: &str, k2: &str) -> (r: Option<String>)
    ensures
        r matches Some(s) ==> either_str(*v, k1@, k2@) == Some(s@),
        r is None ==> either_str(*v, k1@, k2@) is None,
{
    match get_str(v, k1) {
        Some(s) => Some(s.clone()),
        None => match get_str(v, k2) {
            Some(s) => Some(s.clone()),
            None => None,
        },
    }
}

fn or_text(v: Option<String>, d: &str) -> (r: String)
    ensures
        r@ == (match v {
            Some(s) => s@,
            None => d@,
        }),
{
    match v {
        Some(s) => s,
        None => string_of(chars_of(d).as_slice()),
    }
}

/// A data request to save for a control.
pub struct PbcRequest {
    pub control_id: String,
    pub control_ref: String,
    pub name: String,
    pub item_type: String,
    pub table_name: Option<String>,
    pub fields: Vec<String>,
    pub purpose: String,
    pub scope_format: String,
}

/// The control has ref `cref`.
pub open spec fn ref_is(cref: Seq<char>) -> spec_fn(Control) -> bool {
    |c: Control| c.control_ref@ == cref
}

/// The control ref an item names (`control_ref` or `controlRef`), or empty.
pub open spec fn item_ref(item: JsonValue) -> Seq<char> {
    match either_str(item, "control_ref"@, "controlRef"@) {
        Some(s) => s,
        None => Seq::empty(),
    }
}

/// The request described by a generated item for the plan: `None` when no
/// control of the plan has the item's ref; otherwise its fields, with the
/// type defaulting to `SQL`, the purpose to empty and the scope to `Audit
/// period`.
pub open spec fn request_ok(item: JsonValue, plan: Seq<AuditProcessWithControls>, r: PbcRequest) -> bool {
    let cref = item_ref(item);
    let ctrls = plan_controls(plan);
    match first_index(ctrls, ref_is(cref)) {
        None => false,
        Some(k) => {
            &&& r.control_id@ == ctrls[k].id@
            &&& r.control_ref@ == cref
            &&& r.name@ == (match str_of(field(item, "name"@)) {
                Some(s) => s,
                None => Seq::empty(),
            })
            &&& r.item_type@ == (match either_str(item, "item_type"@, "itemType"@) {
                Some(s) => s,
                None => match str_of(field(item, "type"@)) {
                    Some(s) => s,
                    None => "SQL"@,
                },
            })
            &&& (match r.table_name {
                Some(t) => either_str(item, "table_name"@, "tableName"@) == Some(t@),
                None => either_str(item, "table_name"@, "tableName"@) is None,
            })
            &&& strs(r.fields@) == string_items(item, "fields"@)
            &&& r.purpose@ == (match str_of(field(item, "purpose"@)) {
                Some(s) => s,
                None => Seq::empty(),
            })
            &&& r.scope_format@ == (match either_str(item, "scope_format"@, "scopeFormat"@) {
                Some(s) => s,
                None => "Audit period"@,
            })
        },
    }
}

/// Reads one generated data request for the plan; `Err` carries the control
/// ref that no control of the plan has.
pub fn pbc_item_request(item: &JsonValue, plan: &[AuditProcessWithControls]) -> (r: Result<PbcRequest, String>)
    ensures
        r matches Ok(q) ==> request_ok(*item, plan@, q),
        r matches Err(c) ==> c@ == item_ref(*item) && first_index(plan_controls(plan@), ref_is(item_ref(*item))) is None,
{
    proof {
        reveal_strlit("");
    }
    let cref = or_text(either_str_exec(item, "control_ref", "controlRef"), "");
    assert(cref@ == item_ref(*item));
    let ghost ctrls = plan_controls(plan@);
    let ghost fc = |p: AuditProcessWithControls| p.controls@;
    let ghost pr = ref_is(item_ref(*item));
    let mut found: Option<String> = None;
    let mut gi: usize = 0;
    proof {
        lemma_flatten_empty(plan@, fc);
    }
    while gi < plan.len() && found.is_none()
        invariant
            gi <= plan.len(),
            cref@ == item_ref(*item),
            fc == (|p: AuditProcessWithControls| p.controls@),
            pr == ref_is(item_ref(*item)),
            ctrls == plan_controls(plan@),
            ctrls == plan@.map_values(fc).flatten(),
            found matches Some(id) ==> first_index(ctrls, pr) matches Some(k) && ctrls[k].id@ == id@,
            found is None ==> first_index(plan@.take(gi as int).map_values(fc).flatten(), pr) is None,
        decreases plan.len() - gi,
    {
        let cs = &plan[gi].controls;
        let ghost base = plan@.take(gi as int).map_values(fc).flatten();
        let ghost rest = plan@.skip(gi + 1).map_values(fc).flatten();
        proof {
            lemma_flatten_step(plan@, fc, gi as int);
            lemma_flatten_prefix(plan@, fc, gi + 1);
            assert(ctrls =~= base + (cs@ + rest));
        }
        let mut k: usize = 0;
        while k < cs.len() && found.is_none()
            invariant
                k <= cs.len(),
                cref@ == item_ref(*item),
                pr == ref_is(item_ref(*item)),
                ctrls == base + (cs@ + rest),
                first_index(base, pr) is None,
                found matches Some(id) ==> first_index(ctrls, pr) matches Some(q) && ctrls[q].id@ == id@,
                found is None ==> forall|q: int| 0 <= q < k ==> !pr(#[trigger] cs@[q]),
            decreases cs.len() - k,
        {
            if str_eq(cs[k].control_ref.as_str(), cref.as_str()) {
                proof {
                    assert forall|q: int| 0 <= q < k implies !pr(#[trigger] (cs@ + rest)[q]) by {
                        assert((cs@ + rest)[q] == cs@[q]);
                    }
                    assert((cs@ + rest)[k as int] == cs@[k as int]);
                    lemma_first_index_concat(base, cs@ + rest, pr, k as int);
                    assert(ctrls[base.len() + k] == cs@[k as int]);
                }
                found = Some(cs[k].id.clone());
            }
            k = k + 1;
        }
        proof {
            if found is None {
                assert(plan@.take(gi + 1).map_values(fc).flatten() == base + cs@);
                lemma_first_index_concat_none(base, cs@, pr);
            }
        }
        gi = gi + 1;
    }
    match found {
        None => {
            proof {
                if gi < plan.len() {
                    assert(false);
                }
                assert(plan@.take(gi as int) =~= plan@);
            }
            Err(cref)
        },
        Some(control_id) => {
            let name = or_text(match get_str(item, "name") {
                Some(s) => Some(s.clone()),
                None => None,
            }, "");
            let t1 = either_str_exec(item, "item_type", "itemType");
            let item_type = match t1 {
                Some(s) => s,
                None => or_text(match get_str(item, "type") {
                    Some(s) => Some(s.clone()),
                    None => None,
                }, "SQL"),
            };
            let table_name = either_str_exec(item, "table_name", "tableName");
            let fields = json_strings(item, "fields");
            let purpose = or_text(match get_str(item, "purpose") {
                Some(s) => Some(s.clone()),
                None => None,
            }, "");
            let scope_format = or_text(either_str_exec(item, "scope_format", "scopeFormat"), "Audit period");
            let r = PbcRequest { control_id, control_ref: cref, name, item_type, table_name, fields, purpose, scope_format };
            proof {
                let k = first_index(ctrls, pr)->0;
                assert(r.control_id@ == ctrls[k].id@);
                assert(r.control_ref@ == item_ref(*item));
                assert(r.name@ == (match str_of(field(*item, "name"@)) {
                    Some(s) => s,
                    None => Seq::<char>::empty(),
                }));
                assert(r.item_type@ == (match either_str(*item, "item_type"@, "itemType"@) {
                    Some(s) => s,
                    None => match str_of(field(*item, "type"@)) {
                        Some(s) => s,
                        None => "SQL"@,
                    },
                }));
                assert(strs(r.fields@) == string_items(*item, "fields"@));
                assert(r.purpose@ == (match str_of(field(*item, "purpose"@)) {
                    Some(s) => s,
                    None => Seq::<char>::empty(),
                }));
                assert(r.scope_format@ == (match either_str(*item, "scope_format"@, "scopeFormat"@) {
                    Some(s) => s,
                    None => "Audit period"@,
                }));
            }
            Ok(r)
        },
    }
}

proof fn lemma_flatten_prefix(plan: Seq<AuditProcessWithControls>, fc: spec_fn(AuditProcessWithControls) -> Seq<Control>, n: int)
    requires
        0 <= n <= plan.len(),
    ensures
        plan.map_values(fc).flatten() == plan.take(n).map_values(fc).flatten() + plan.skip(n).map_values(fc).flatten(),
{
    assert(plan.map_values(fc) =~= plan.take(n).map_values(fc) + plan.skip(n).map_values(fc));
    vstd::seq_lib::lemma_flatten_concat(plan.take(n).map_values(fc), plan.skip(n).map_values(fc));
}

proof fn lemma_first_index_concat(a: Seq<Control>, b: Seq<Control>, p: spec_fn(Control) -> bool, k: int)
    requires
        first_index(a, p) is None,
        0 <= k < b.len(),
        p(b[k]),
        forall|q: int| 0 <= q < k ==> !p(#[trigger] b[q]),
    ensures
        first_index(a + b, p) == Some(a.len() + k),
{
    crate::seqs::lemma_first_index_from(a, p, 0);
    let s = a + b;
    assert forall|q: int| 0 <= q < a.len() + k implies !p(#[trigger] s[q]) by {
        if q < a.len() {
            assert(s[q] == a[q]);
        } else {
            assert(s[q] == b[q - a.len()]);
        }
    }
    lemma_first_index_scan(s, p, a.len() + k);
}

proof fn lemma_first_index_concat_none(a: Seq<Control>, b: Seq<Control>, p: spec_fn(Control) -> bool)
    requires
        first_index(a, p) is None,
        forall|q: int| 0 <= q < b.len() ==> !p(#[trigger] b[q]),
    ensures
        first_index(a + b, p) is None,
{
    crate::seqs::lemma_first_index_from(a, p, 0);
    let s = a + b;
    assert forall|q: int| 0 <= q < s.len() implies !p(#[trigger] s[q]) by {
        if q < a.len() {
            assert(s[q] == a[q]);
        } else {
            assert(s[q] == b[q - a.len()]);
        }
    }
    lemma_first_index_none_scan(s, p, 0);
}

proof fn lemma_first_index_scan(s: Seq<Control>, p: spec_fn(Control) -> bool, k: int)
    requires
        0 <= k < s.len(),
        p(s[k]),
        forall|q: int| 0 <= q < k ==> !p(#[trigger] s[q]),
    ensures
        first_index(s, p) == Some(k),
{
    lemma_scan_from(s, p, k, 0);
}

proof fn lemma_scan_from(s: Seq<Control>, p: spec_fn(Control) -> bool, k: int, i: int)
    requires
        0 <= i <= k < s.len(),
        p(s[k]),
        forall|q: int| 0 <= q < k ==> !p(#[trigger] s[q]),
    ensures
        first_index_from(s, p, i) == Some(k),
    decreases k - i,
{
    if i < k {
        lemma_scan_from(s, p, k, i + 1);
    }
}

proof fn lemma_first_index_none_scan(s: Seq<Control>, p: spec_fn(Control) -> bool, i: int)
    requires
        0 <= i <= s.len(),
        forall|q: int| 0 <= q < s.len() ==> !p(#[trigger] s[q]),
    ensures
        first_index_from(s, p, i) is None,
    decreases s.len() - i,
{
    if i < s.len() {
        lemma_first_index_none_scan(s, p, i + 1);
    }
}

/// The message after saving generated requests: nothing saved, or some refs
/// that could not be matched; `None` when everything was saved.
pub open spec fn generation_message(saved: nat, unmatched: Seq<Seq<char>>) -> Option<Seq<char>> {
    if saved == 0 {
        Some("Nothing saved. "@ + (if unmatched.len() == 0 {
            "No items in response."@
        } else {
            "Unmatched/failed control refs: "@ + join(unmatched, ", "@)
        }))
    } else if unmatched.len() > 0 {
        Some("Saved "@ + crate::text::dec(saved) + " items. Could not match: "@ + join(unmatched, ", "@))
    } else {
        None
    }
}

/// The message shown after saving generated requests (see
/// `generation_message`).
pub fn generation_outcome(saved: usize, unmatched: &[String]) -> (r: Option<String>)
    ensures
        r matches Some(m) ==> generation_message(saved as nat, strs(unmatched@)) == Some(m@),
        r is None ==> generation_message(saved as nat, strs(unmatched@)) is None,
{
    if saved == 0 {
        let mut m = chars_of("Nothing saved. ");
        if unmatched.len() == 0 {
            extend_str(&mut m, "No items in response.");
        } else {
            extend_str(&mut m, "Unmatched/failed control refs: ");
            let j = crate::model::join_strings(unmatched, ", ");
            extend_chars(&mut m, j.as_slice());
        }
        Some(string_of(m.as_slice()))
    } else if unmatched.len() > 0 {
        let mut m = chars_of("Saved ");
        let n = fmt_usize(saved);
        extend_chars(&mut m, n.as_slice());
        extend_str(&mut m, " items. Could not match: ");
        let j = crate::model::join_strings(unmatched, ", ");
        extend_chars(&mut m, j.as_slice());
        Some(string_of(m.as_slice()))
    } else {
        None
    }
}

/// The items of a generated list, when it has a non-empty `items` array.
pub open spec fn list_items(reply: JsonValue) -> Option<Seq<JsonValue>> {
    match array_of(field(reply, "items"@)) {
        Some(a) => if a.len() > 0 {
            Some(a)
        } else {
            None
        },
        None => None,
    }
}

/// The items of a generated PBC list, if it has any (the request for that
/// part of the plan is retried once otherwise).
pub fn pbc_items(reply: JsonValue) -> (r: Option<Vec<JsonValue>>)
    ensures
        r matches Some(v) ==> list_items(reply) == Some(v@),
        r is None ==> list_items(reply) is None,
{
    match crate::json::take_field(reply, "items") {
        Some(JsonValue::Array(v)) => {
            if v.len() > 0 {
                Some(v)
            } else {
                None
            }
        },
        _ => None,
    }
}

// ───────────────────────────── the data-request screen ─────────────────────────────

/// All the requests of the groups, group by group.
pub open spec fn all_items(groups: Seq<PbcGroup>) -> Seq<PbcItem> {
    groups.map_values(|g: PbcGroup| g.items@).flatten()
}

/// The number of requests of the kind `kind` (`SQL`, `CSV`, ...).
pub open spec fn kind_count(items: Seq<PbcItem>, kind: Seq<char>) -> nat
    decreases items.len(),
{
    if items.len() == 0 {
        0
    } else {
        kind_count(items.drop_last(), kind) + (if items.last().item_type@ == kind { 1nat } else { 0nat })
    }
}

proof fn lemma_kind_count_le(items: Seq<PbcItem>, kind: Seq<char>)
    ensures
        kind_count(items, kind) <= items.len(),
    decreases items.len(),
{
    if items.len() > 0 {
        lemma_kind_count_le(items.drop_last(), kind);
    }
}

proof fn lemma_kind_count_append(a: Seq<PbcItem>, b: Seq<PbcItem>, kind: Seq<char>)
    ensures
        kind_count(a + b, kind) == kind_count(a, kind) + kind_count(b, kind),
    decreases b.len(),
{
    if b.len() > 0 {
        assert((a + b).drop_last() =~= a + b.drop_last());
        lemma_kind_count_append(a, b.drop_last(), kind);
    } else {
        assert(a + b =~= a);
    }
}

/// The number of requests and of requests of kind `kind`, over all groups.
pub fn request_counts(groups: &[PbcGroup], kind: &str) -> (r: (usize, usize))
    requires
        all_items(groups@).len() <= usize::MAX,
    ensures
        r.0 == all_items(groups@).len(),
        r.1 == kind_count(all_items(groups@), kind@),
{
    let ghost f = |g: PbcGroup| g.items@;
    let mut total: usize = 0;
    let mut n: usize = 0;
    let mut i: usize = 0;
    proof {
        lemma_flatten_empty(groups@, f);
    }
    while i < groups.len()
        invariant
            i <= groups.len(),
            f == (|g: PbcGroup| g.items@),
            all_items(groups@).len() <= usize::MAX,
            total == groups@.take(i as int).map_values(f).flatten().len(),
            n == kind_count(groups@.take(i as int).map_values(f).flatten(), kind@),
        decreases groups.len() - i,
    {
        let ghost before = groups@.take(i as int).map_values(f).flatten();
        let items = &groups[i].items;
        let mut j: usize = 0;
        proof {
            lemma_flatten_step(groups@, f, i as int);
            assert(items@.take(0) =~= Seq::<PbcItem>::empty());
            assert(before + items@.take(0) =~= before);
            crate::seqs::lemma_flatten_prefix_len(groups@, f, i as int + 1);
        }
        while j < items.len()
            invariant
                j <= items.len(),
                *items == groups@[i as int].items,
                total + (items.len() - j) <= usize::MAX,
                total == (before + items@.take(j as int)).len(),
                n == kind_count(before + items@.take(j as int), kind@),
            decreases items.len() - j,
        {
            assert(items@.take(j + 1) =~= items@.take(j as int).push(items@[j as int]));
            assert(before + items@.take(j + 1) =~= (before + items@.take(j as int)).push(items@[j as int]));
            assert((before + items@.take(j + 1)).drop_last() =~= before + items@.take(j as int));
            proof {
                lemma_kind_count_le(before + items@.take(j as int), kind@);
            }
            if str_eq(items[j].item_type.as_str(), kind) {
                n = n + 1;
            }
            total = total + 1;
            j = j + 1;
        }
        assert(items@.take(items.len() as int) =~= items@);
        i = i + 1;
    }
    assert(groups@.take(groups.len() as int) =~= groups@);
    (total, n)
}

/// The number of a group's requests whose id is among the approved ones.
pub open spec fn approved_among(items: Seq<PbcItem>, approved: Seq<Seq<char>>) -> nat
    decreases items.len(),
{
    if items.len() == 0 {
        0
    } else {
        approved_among(items.drop_last(), approved) + (if approved.contains(items.last().id@) { 1nat } else { 0nat })
    }
}

/// How many requests of a group are approved (shown as `approved/total`).
pub fn group_approved_count(group: &PbcGroup, approved: &Vec<String>) -> (n: usize)
    ensures
        n == approved_among(group.items@, strs(approved@)),
        n <= group.items@.len(),
{
    let mut n: usize = 0;
    let mut i: usize = 0;
    while i < group.items.len()
        invariant
            i <= group.items.len(),
            n == approved_among(group.items@.take(i as int), strs(approved@)),
            n <= i,
        decreases group.items.len() - i,
    {
        assert(group.items@.take(i + 1).drop_last() =~= group.items@.take(i as int));
        if contains_string(approved, &group.items[i].id) {
            n = n + 1;
        }
        i = i + 1;
    }
    assert(group.items@.take(group.items.len() as int) =~= group.items@);
    n
}

/// One request as the synchronisation prompt lists it.
pub open spec fn sync_item_line(i: PbcItem) -> Seq<char> {
    "  - "@ + i.name@ + " ["@ + i.item_type@ + "] table:"@ + (match i.table_name {
        Some(t) => t@,
        None => "\u{2014}"@,
    }) + " fields:"@ + join(strs(i.fields@), ", "@) + " purpose:"@ + i.purpose@ + " scope:"@ + i.scope_format@
        + "\n"@
}

/// The requests of a group with any, under its control.
pub open spec fn sync_group_text(g: PbcGroup) -> Seq<char> {
    if g.items@.len() == 0 {
        Seq::empty()
    } else {
        "Control "@ + g.control_ref@ + ": "@ + g.title@ + "\n"@ + g.items@.map_values(|i: PbcItem| sync_item_line(i)).flatten()
    }
}

/// One control as the synchronisation prompt lists it.
pub open spec fn sync_control_line(c: Control) -> Seq<char> {
    "  Control "@ + c.control_ref@ + ": objective="@ + c.control_objective@ + " | procedure="@ + c.test_procedure@
        + " | risk="@ + c.risk_level@ + "\n"@
}

pub open spec fn sync_process_text(p: AuditProcessWithControls) -> Seq<char> {
    "Process: "@ + p.process_name@ + "\n"@ + p.controls@.map_values(|c: Control| sync_control_line(c)).flatten()
}

/// The prompt that asks the model to bring the data requests in line with
/// the plan: the instructions, the plan, then the requests by control.
pub open spec fn sync_prompt_text(base: Seq<char>, plan: Seq<AuditProcessWithControls>, groups: Seq<PbcGroup>) -> Seq<char> {
    base + "\nAUDIT PLAN:\n"@ + plan.map_values(|p: AuditProcessWithControls| sync_process_text(p)).flatten()
        + "\nPBC DATA REQUESTS:\n"@ + groups.map_values(|g: PbcGroup| sync_group_text(g)).flatten()
}

fn sync_item_exec(i: &PbcItem) -> (r: Vec<char>)
    ensures
        r@ == sync_item_line(*i),
{
    let mut r = chars_of("  - ");
    extend_str(&mut r, i.name.as_str());
    extend_str(&mut r, " [");
    extend_str(&mut r, i.item_type.as_str());
    extend_str(&mut r, "] table:");
    match &i.table_name {
        Some(t) => extend_str(&mut r, t.as_str()),
        None => extend_str(&mut r, "\u{2014}"),
    }
    extend_str(&mut r, " fields:");
    let f = crate::model::join_strings(i.fields.as_slice(), ", ");
    extend_chars(&mut r, f.as_slice());
    extend_str(&mut r, " purpose:");
    extend_str(&mut r, i.purpose.as_str());
    extend_str(&mut r, " scope:");
    extend_str(&mut r, i.scope_format.as_str());
    extend_str(&mut r, "\n");
    r
}

fn sync_group_exec(g: &PbcGroup) -> (r: Vec<char>)
    ensures
        r@ == sync_group_text(*g),
{
    if g.items.len() == 0 {
        return Vec::new();
    }
    let ghost f = |i: PbcItem| sync_item_line(i);
    let mut r = chars_of("Control ");
    extend_str(&mut r, g.control_ref.as_str());
    extend_str(&mut r, ": ");
    extend_str(&mut r, g.title.as_str());
    extend_str(&mut r, "\n");
    let ghost head = r@;
    proof {
        lemma_flatten_empty(g.items@, f);
    }
    let mut j: usize = 0;
    while j < g.items.len()
        invariant
            j <= g.items.len(),
            f == (|i: PbcItem| sync_item_line(i)),
            r@ == head + g.items@.take(j as int).map_values(f).flatten(),
        decreases g.items.len() - j,
    {
        let l = sync_item_exec(&g.items[j]);
        extend_chars(&mut r, l.as_slice());
        proof {
            lemma_flatten_step(g.items@, f, j as int);
        }
        j = j + 1;
    }
    assert(g.items@.take(g.items.len() as int) =~= g.items@);
    r
}

fn sync_process_exec(p: &AuditProcessWithControls) -> (r: Vec<char>)
    ensures
        r@ == sync_process_text(*p),
{
    let ghost f = |c: Control| sync_control_line(c);
    let mut r = chars_of("Process: ");
    extend_str(&mut r, p.process_name.as_str());
    extend_str(&mut r, "\n");
    let ghost head = r@;
    proof {
        lemma_flatten_empty(p.controls@, f);
    }
    let mut j: usize = 0;
    while j < p.controls.len()
        invariant
            j <= p.controls.len(),
            f == (|c: Control| sync_control_line(c)),
            r@ == head + p.controls@.take(j as int).map_values(f).flatten(),
        decreases p.controls.len() - j,
    {
        let c = &p.controls[j];
        let mut l = chars_of("  Control ");
        extend_str(&mut l, c.control_ref.as_str());
        extend_str(&mut l, ": objective=");
        extend_str(&mut l, c.control_objective.as_str());
        extend_str(&mut l, " | procedure=");
        extend_str(&mut l, c.test_procedure.as_str());
        extend_str(&mut l, " | risk=");
        extend_str(&mut l, c.risk_level.as_str());
        extend_str(&mut l, "\n");
        extend_chars(&mut r, l.as_slice());
        proof {
            assert(l@ == f(p.controls@[j as int]));
            lemma_flatten_step(p.controls@, f, j as int);
        }
        j = j + 1;
    }
    assert(p.controls@.take(p.controls.len() as int) =~= p.controls@);
    r
}

/// Builds the prompt that aligns the data requests with the audit plan (see
/// `sync_prompt_text`).
pub fn sync_prompt(base: &str, plan: &[AuditProcessWithControls], groups: &[PbcGroup]) -> (s: String)
    ensures
        s@ == sync_prompt_text(base@, plan@, groups@),
{
    let ghost fp = |p: AuditProcessWithControls| sync_process_text(p);
    let ghost fg = |g: PbcGroup| sync_group_text(g);
    let mut r = chars_of(base);
    extend_str(&mut r, "\nAUDIT PLAN:\n");
    let ghost h1 = r@;
    proof {
        lemma_flatten_empty(plan@, fp);
    }
    let mut i: usize = 0;
    while i < plan.len()
        invariant
            i <= plan.len(),
            fp == (|p: AuditProcessWithControls| sync_process_text(p)),
            r@ == h1 + plan@.take(i as int).map_values(fp).flatten(),
        decreases plan.len() - i,
    {
        let t = sync_process_exec(&plan[i]);
        extend_chars(&mut r, t.as_slice());
        proof {
            lemma_flatten_step(plan@, fp, i as int);
        }
        i = i + 1;
    }
    assert(plan@.take(plan.len() as int) =~= plan@);
    extend_str(&mut r, "\nPBC DATA REQUESTS:\n");
    let ghost h2 = r@;
    proof {
        lemma_flatten_empty(groups@, fg);
    }
    let mut k: usize = 0;
    while k < groups.len()
        invariant
            k <= groups.len(),
            fg == (|g: PbcGroup| sync_group_text(g)),
            r@ == h2 + groups@.take(k as int).map_values(fg).flatten(),
        decreases groups.len() - k,
    {
        let t = sync_group_exec(&groups[k]);
        extend_chars(&mut r, t.as_slice());
        proof {
            lemma_flatten_step(groups@, fg, k as int);
        }
        k = k + 1;
    }
    assert(groups@.take(groups.len() as int) =~= groups@);
    string_of(r.as_slice())
}

} // verus!
