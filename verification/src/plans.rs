//! Merging the audit plans produced from the chunks of one SOP into a single
//! plan: processes of the same name (in any case) become one, and the
//! controls are renumbered `C-1`, `C-2`, … across the whole plan.
use vstd::prelude::*;
use crate::text::same_chars;
use crate::json::{array_of, field, get_str, member, set_member, str_of, take_field, JsonValue};
use crate::seqs::{first_index, first_index_from, lemma_first_index_from};
use crate::text::{chars_of, dec, fmt_usize, string_of};
use crate::unicode::{lower_chars, lowercase};

verus! {

/// A process name, or the empty string.
pub open spec fn proc_name(p: JsonValue) -> Seq<char> {
    match str_of(field(p, "process_name"@)) {
        Some(n) => n,
        None => Seq::empty(),
    }
}

/// A process description, or the empty string.
pub open spec fn proc_desc(p: JsonValue) -> Seq<char> {
    match str_of(field(p, "description"@)) {
        Some(d) => d,
        None => Seq::empty(),
    }
}

/// A process's controls, or none.
pub open spec fn proc_ctrls(p: JsonValue) -> Seq<JsonValue> {
    match array_of(field(p, "controls"@)) {
        Some(a) => a,
        None => Seq::empty(),
    }
}

/// A plan's processes, or none.
pub open spec fn plan_processes(plan: JsonValue) -> Seq<JsonValue> {
    match array_of(field(plan, "processes"@)) {
        Some(a) => a,
        None => Seq::empty(),
    }
}

/// The group has the lowercase name `key`.
pub open spec fn key_is(key: Seq<char>) -> spec_fn((Seq<char>, Seq<char>, Seq<char>, Seq<JsonValue>)) -> bool {
    |g: (Seq<char>, Seq<char>, Seq<char>, Seq<JsonValue>)| g.0 == key
}

/// Adds a process to the merged groups (lowercase name, name, description,
/// controls): a process without a name is skipped; one whose lowercase name
/// is already there adds its controls to that group; any other starts a new
/// group.
pub open spec fn add_process(
    gs: Seq<(Seq<char>, Seq<char>, Seq<char>, Seq<JsonValue>)>,
    p: JsonValue,
) -> Seq<(Seq<char>, Seq<char>, Seq<char>, Seq<JsonValue>)> {
    let name = proc_name(p);
    if name.len() == 0 {
        gs
    } else {
        let key = lowercase(name);
        match first_index(gs, key_is(key)) {
            Some(j) => gs.update(j, (gs[j].0, gs[j].1, gs[j].2, gs[j].3 + proc_ctrls(p))),
            None => gs.push((key, name, proc_desc(p), proc_ctrls(p))),
        }
    }
}

pub open spec fn add_processes(
    gs: Seq<(Seq<char>, Seq<char>, Seq<char>, Seq<JsonValue>)>,
    ps: Seq<JsonValue>,
) -> Seq<(Seq<char>, Seq<char>, Seq<char>, Seq<JsonValue>)>
    decreases ps.len(),
{
    if ps.len() == 0 {
        gs
    } else {
        add_process(add_processes(gs, ps.drop_last()), ps.last())
    }
}

/// The merged process groups of the plans, in order of first appearance.
pub open spec fn merged_groups(plans: Seq<JsonValue>) -> Seq<(Seq<char>, Seq<char>, Seq<char>, Seq<JsonValue>)>
    decreases plans.len(),
{
    if plans.len() == 0 {
        Seq::empty()
    } else {
        add_processes(merged_groups(plans.drop_last()), plan_processes(plans.last()))
    }
}

/// The first non-empty string member `key` among the plans, or empty.
pub open spec fn first_text(plans: Seq<JsonValue>, key: Seq<char>) -> Seq<char>
    decreases plans.len(),
{
    if plans.len() == 0 {
        Seq::empty()
    } else {
        let p = first_text(plans.drop_last(), key);
        if p.len() == 0 {
            match str_of(field(plans.last(), key)) {
                Some(s) => s,
                None => Seq::empty(),
            }
        } else {
            p
        }
    }
}

/// The number of controls that are objects (only those are numbered).
pub open spec fn object_count(cs: Seq<JsonValue>) -> nat
    decreases cs.len(),
{
    if cs.len() == 0 {
        0
    } else {
        object_count(cs.drop_last()) + (if cs.last() is Object {
            1nat
        } else {
            0nat
        })
    }
}

/// The number of object controls in the first `i` groups.
pub open spec fn objects_before(gs: Seq<(Seq<char>, Seq<char>, Seq<char>, Seq<JsonValue>)>, i: int) -> nat
    decreases i,
{
    if i <= 0 || i > gs.len() {
        0
    } else {
        objects_before(gs, i - 1) + object_count(gs[i - 1].3)
    }
}

/// The ref given to the `n`-th control.
pub open spec fn ref_label(n: nat) -> Seq<char> {
    "C-"@ + dec(n)
}

/// `c2` is control `c` numbered `n`: an object gets `control_ref` set to
/// `C-n` and keeps its other members; anything else is left as it is.
pub open spec fn renumbered(c: JsonValue, c2: JsonValue, n: nat) -> bool {
    match c {
        JsonValue::Object(e) => match c2 {
            JsonValue::Object(e2) => str_of(member(e2@, "control_ref"@)) == Some(ref_label(n)) && forall|k: Seq<char>|
                k != "control_ref"@ ==> member(#[trigger] e2@, k) == member(e@, k),
            _ => false,
        },
        _ => c2 == c,
    }
}

/// The controls numbered from `start` on, in order.
pub open spec fn controls_renumbered(cs: Seq<JsonValue>, out: Seq<JsonValue>, start: nat) -> bool {
    out.len() == cs.len() && forall|j: int|
        0 <= j < cs.len() ==> renumbered(cs[j], #[trigger] out[j], start + object_count(cs.take(j)))
}

/// A merged process: its name, description and controls numbered from
/// `start` on.
pub open spec fn merged_process(p: JsonValue, g: (Seq<char>, Seq<char>, Seq<char>, Seq<JsonValue>), start: nat) -> bool {
    &&& str_of(field(p, "process_name"@)) == Some(g.1)
    &&& str_of(field(p, "description"@)) == Some(g.2)
    &&& p is Object && p->Object_0@.len() == 3
    &&& match array_of(field(p, "controls"@)) {
        Some(cs) => controls_renumbered(g.3, cs, start),
        None => false,
    }
}

/// The merged plan: the first industry and regulatory framework given, and
/// one process per group with the controls numbered across the whole plan
/// from `C-1`.
pub open spec fn merged_plan(plans: Seq<JsonValue>, out: JsonValue) -> bool {
    let gs = merged_groups(plans);
    &&& out is Object && out->Object_0@.len() == 3
    &&& str_of(field(out, "industry"@)) == Some(first_text(plans, "industry"@))
    &&& str_of(field(out, "regulatory_framework"@)) == Some(first_text(plans, "regulatory_framework"@))
    &&& match array_of(field(out, "processes"@)) {
        Some(ps) => ps.len() == gs.len() && forall|i: int|
            0 <= i < gs.len() ==> merged_process(#[trigger] ps[i], gs[i], 1 + objects_before(gs, i)),
        None => false,
    }
}

/// A group being built.
pub struct MergeGroup {
    pub key: Vec<char>,
    pub name: String,
    pub desc: String,
    pub ctrls: Vec<JsonValue>,
}

pub open spec fn groups_view(gs: Seq<MergeGroup>) -> Seq<(Seq<char>, Seq<char>, Seq<char>, Seq<JsonValue>)> {
    Seq::new(gs.len(), |i: int| (gs[i].key@, gs[i].name@, gs[i].desc@, gs[i].ctrls@))
}


#[verifier::loop_isolation(false)]
fn add_process_exec(groups: &mut Vec<MergeGroup>, p: JsonValue)
    ensures
        groups_view(final(groups)@) == add_process(groups_view(old(groups)@), p),
{
    let ghost g0 = groups_view(groups@);
    let ghost pv = p;
    let name = match get_str(&p, "process_name") {
        Some(n) => n.clone(),
        None => String::new(),
    };
    let desc = match get_str(&p, "description") {
        Some(d) => d.clone(),
        None => String::new(),
    };
    assert(name@ == proc_name(pv));
    assert(desc@ == proc_desc(pv));
    let nc = chars_of(name.as_str());
    if nc.len() == 0 {
        return;
    }
    let key = lower_chars(nc.as_slice());
    assert(key@ == lowercase(proc_name(pv)));
    let ctrls: Vec<JsonValue> = match take_field(p, "controls") {
        Some(JsonValue::Array(v)) => v,
        _ => Vec::new(),
    };
    assert(ctrls@ == proc_ctrls(pv));
    let ghost pk = key_is(key@);
    let mut j: usize = 0;
    while j < groups.len()
        invariant
            j <= groups.len(),
            groups_view(groups@) == g0,
            g0 == groups_view(old(groups)@),
            pk == key_is(key@),
            first_index(g0, pk) == first_index_from(g0, pk, j as int),
        decreases groups.len() - j,
    {
        if same_chars(groups[j].key.as_slice(), key.as_slice()) {
            assert(pk(g0[j as int]));
            assert(first_index_from(g0, pk, j as int) == Some(j as int));
            let ghost before = groups@;
            let mut g = groups.remove(j);
            assert(g == before[j as int]);
            let ghost gc = g.ctrls@;
            let mut c = ctrls;
            g.ctrls.append(&mut c);
            let ghost gv = (g.key@, g.name@, g.desc@, g.ctrls@);
            assert(gv == (g0[j as int].0, g0[j as int].1, g0[j as int].2, g0[j as int].3 + proc_ctrls(pv)));
            groups.insert(j, g);
            assert(groups_view(groups@) =~= g0.update(j as int, gv));
            assert(add_process(g0, pv) == g0.update(j as int, gv));
            return;
        }
        j = j + 1;
    }
    let ghost gv = (key@, name@, desc@, ctrls@);
    assert(first_index(g0, pk) is None);
    assert(add_process(g0, pv) == g0.push(gv));
    groups.push(MergeGroup { key, name, desc, ctrls });
    assert(groups_view(groups@) =~= g0.push(gv));
}

fn text_member(v: &JsonValue, key: &str) -> (r: String)
    ensures
        r@ == (match str_of(field(*v, key@)) {
            Some(s) => s,
            None => Seq::<char>::empty(),
        }),
{
    match get_str(v, key) {
        Some(s) => s.clone(),
        None => String::new(),
    }
}

fn key_string(k: &str) -> (r: String)
    ensures
        r@ == k@,
{
    string_of(chars_of(k).as_slice())
}

fn object3(k1: &str, v1: JsonValue, k2: &str, v2: JsonValue, k3: &str, v3: JsonValue) -> (r: JsonValue)
    requires
        k1@ != k2@,
        k1@ != k3@,
        k2@ != k3@,
    ensures
        r is Object,
        r->Object_0@.len() == 3,
        field(r, k1@) == Some(v1),
        field(r, k2@) == Some(v2),
        field(r, k3@) == Some(v3),
{
    let mut e: Vec<(String, JsonValue)> = Vec::new();
    e.push((key_string(k1), v1));
    e.push((key_string(k2), v2));
    e.push((key_string(k3), v3));
    let ghost s = e@;
    proof {
        let p1 = |x: (String, JsonValue)| x.0@ == k1@;
        let p2 = |x: (String, JsonValue)| x.0@ == k2@;
        let p3 = |x: (String, JsonValue)| x.0@ == k3@;
        assert(first_index_from(s, p1, 0) == Some(0int));
        assert(first_index_from(s, p2, 1) == Some(1int));
        assert(first_index_from(s, p2, 0) == Some(1int));
        assert(first_index_from(s, p3, 2) == Some(2int));
        assert(first_index_from(s, p3, 1) == Some(2int));
        assert(first_index_from(s, p3, 0) == Some(2int));
    }
    JsonValue::Object(e)
}

pub proof fn lemma_object_count_step(cs: Seq<JsonValue>, k: int)
    requires
        0 <= k < cs.len(),
    ensures
        object_count(cs.take(k + 1)) == object_count(cs.take(k)) + (if cs[k] is Object {
            1nat
        } else {
            0nat
        }),
{
    assert(cs.take(k + 1).drop_last() =~= cs.take(k));
}

pub proof fn lemma_object_count_prefix(cs: Seq<JsonValue>, k: int)
    requires
        0 <= k <= cs.len(),
    ensures
        object_count(cs.take(k)) <= object_count(cs),
    decreases cs.len() - k,
{
    if k < cs.len() {
        lemma_object_count_step(cs, k);
        lemma_object_count_prefix(cs, k + 1);
    } else {
        assert(cs.take(k) =~= cs);
    }
}

pub proof fn lemma_objects_before_mono(gs: Seq<(Seq<char>, Seq<char>, Seq<char>, Seq<JsonValue>)>, i: int, j: int)
    requires
        0 <= i <= j <= gs.len(),
    ensures
        objects_before(gs, i) <= objects_before(gs, j),
    decreases j - i,
{
    if i < j {
        lemma_objects_before_mono(gs, i, j - 1);
    }
}

/// The object controls of a list of processes.
pub open spec fn procs_objects(ps: Seq<JsonValue>) -> nat
    decreases ps.len(),
{
    if ps.len() == 0 {
        0
    } else {
        procs_objects(ps.drop_last()) + object_count(proc_ctrls(ps.last()))
    }
}

/// The object controls of all processes of all plans.
pub open spec fn plan_object_controls(plans: Seq<JsonValue>) -> nat
    decreases plans.len(),
{
    if plans.len() == 0 {
        0
    } else {
        plan_object_controls(plans.drop_last()) + procs_objects(plan_processes(plans.last()))
    }
}

proof fn lemma_object_count_concat(a: Seq<JsonValue>, b: Seq<JsonValue>)
    ensures
        object_count(a + b) == object_count(a) + object_count(b),
    decreases b.len(),
{
    if b.len() == 0 {
        assert(a + b =~= a);
    } else {
        assert((a + b).drop_last() =~= a + b.drop_last());
        lemma_object_count_concat(a, b.drop_last());
    }
}

proof fn lemma_objects_before_update(
    gs: Seq<(Seq<char>, Seq<char>, Seq<char>, Seq<JsonValue>)>,
    j: int,
    c: Seq<JsonValue>,
    n: int,
)
    requires
        0 <= j < gs.len(),
        0 <= n <= gs.len(),
    ensures
        objects_before(gs.update(j, (gs[j].0, gs[j].1, gs[j].2, gs[j].3 + c)), n) == objects_before(gs, n) + (if j < n {
            object_count(c)
        } else {
            0
        }),
    decreases n,
{
    if n > 0 {
        lemma_objects_before_update(gs, j, c, n - 1);
        if n - 1 == j {
            lemma_object_count_concat(gs[j].3, c);
        }
    }
}

proof fn lemma_objects_before_push(
    gs: Seq<(Seq<char>, Seq<char>, Seq<char>, Seq<JsonValue>)>,
    x: (Seq<char>, Seq<char>, Seq<char>, Seq<JsonValue>),
    n: int,
)
    requires
        0 <= n <= gs.len(),
    ensures
        objects_before(gs.push(x), n) == objects_before(gs, n),
    decreases n,
{
    if n > 0 {
        lemma_objects_before_push(gs, x, n - 1);
    }
}

proof fn lemma_add_processes_bound(gs: Seq<(Seq<char>, Seq<char>, Seq<char>, Seq<JsonValue>)>, ps: Seq<JsonValue>)
    ensures
        objects_before(add_processes(gs, ps), add_processes(gs, ps).len() as int) <= objects_before(gs, gs.len() as int)
            + procs_objects(ps),
    decreases ps.len(),
{
    if ps.len() > 0 {
        lemma_add_processes_bound(gs, ps.drop_last());
        let hs = add_processes(gs, ps.drop_last());
        let p = ps.last();
        let name = proc_name(p);
        if name.len() > 0 {
            let key = lowercase(name);
            lemma_first_index_from(hs, key_is(key), 0);
            match first_index(hs, key_is(key)) {
                Some(j) => {
                    lemma_objects_before_update(hs, j, proc_ctrls(p), hs.len() as int);
                },
                None => {
                    let x = (key, name, proc_desc(p), proc_ctrls(p));
                    lemma_objects_before_push(hs, x, hs.len() as int);
                    assert(hs.push(x)[hs.len() as int] == x);
                },
            }
        }
    }
}

/// The controls `merge_plans` numbers are at most the object controls of
/// all processes of the plans, so a caller meets its `requires` by bounding
/// those (`plan_object_controls(plans) < usize::MAX`).
pub proof fn lemma_merge_plans_bound(plans: Seq<JsonValue>)
    ensures
        objects_before(merged_groups(plans), merged_groups(plans).len() as int) <= plan_object_controls(plans),
    decreases plans.len(),
{
    if plans.len() > 0 {
        lemma_merge_plans_bound(plans.drop_last());
        lemma_add_processes_bound(merged_groups(plans.drop_last()), plan_processes(plans.last()));
    }
}

/// Merges the plans of several SOP chunks (see `merged_plan`): the first
/// non-empty industry and regulatory framework; processes grouped by name
/// without regard to case in order of first appearance, each keeping the
/// first name and description and collecting the controls of all; the
/// object controls numbered `C-1`, `C-2`, … in order across the plan.
#[verifier::loop_isolation(false)]
pub fn merge_plans(plans: Vec<JsonValue>) -> (out: JsonValue)
    requires
        objects_before(merged_groups(plans@), merged_groups(plans@).len() as int) < usize::MAX,
    ensures
        merged_plan(plans@, out),
{
    let ghost p0 = plans@;
    let mut plans = plans;
    let mut groups: Vec<MergeGroup> = Vec::new();
    let mut industry = String::new();
    let mut framework = String::new();
    let mut i: usize = 0;
    let n = plans.len();
    assert(p0.take(0) =~= Seq::<JsonValue>::empty());
    while i < n
        invariant
            i <= n,
            n == p0.len(),
            plans@ == p0.skip(i as int),
            groups_view(groups@) == merged_groups(p0.take(i as int)),
            industry@ == first_text(p0.take(i as int), "industry"@),
            framework@ == first_text(p0.take(i as int), "regulatory_framework"@),
        decreases n - i,
    {
        let plan = plans.remove(0);
        assert(plan == p0[i as int]);
        proof {
            assert(p0.take(i + 1).drop_last() =~= p0.take(i as int));
            assert(p0.take(i + 1).last() == p0[i as int]);
            assert(plans@ =~= p0.skip(i + 1));
        }
        if industry.as_str().is_empty() {
            industry = text_member(&plan, "industry");
        }
        if framework.as_str().is_empty() {
            framework = text_member(&plan, "regulatory_framework");
        }
        let ghost base = groups_view(groups@);
        let procs: Vec<JsonValue> = match take_field(plan, "processes") {
            Some(JsonValue::Array(v)) => v,
            _ => Vec::new(),
        };
        let ghost ps0 = procs@;
        assert(ps0 == plan_processes(p0[i as int]));
        let mut procs = procs;
        let mut k: usize = 0;
        let m = procs.len();
        assert(ps0.take(0) =~= Seq::<JsonValue>::empty());
        while k < m
            invariant
                k <= m,
                m == ps0.len(),
                procs@ == ps0.skip(k as int),
                groups_view(groups@) == add_processes(base, ps0.take(k as int)),
            decreases m - k,
        {
            let pr = procs.remove(0);
            proof {
                assert(ps0.take(k + 1).drop_last() =~= ps0.take(k as int));
                assert(ps0.take(k + 1).last() == ps0[k as int]);
                assert(procs@ =~= ps0.skip(k + 1));
            }
            add_process_exec(&mut groups, pr);
            k = k + 1;
        }
        assert(ps0.take(m as int) =~= ps0);
        i = i + 1;
    }
    assert(p0.take(n as int) =~= p0);
    let ghost gs = groups_view(groups@);
    let ghost total = objects_before(gs, gs.len() as int);
    let mut counter: usize = 1;
    let mut out_procs: Vec<JsonValue> = Vec::new();
    let ng = groups.len();
    let mut gi: usize = 0;
    while gi < ng
        invariant
            gi <= ng,
            ng == gs.len(),
            gs == merged_groups(p0),
            total == objects_before(gs, gs.len() as int),
            total < usize::MAX,
            groups_view(groups@) == gs.skip(gi as int),
            counter == 1 + objects_before(gs, gi as int),
            out_procs@.len() == gi,
            forall|q: int| 0 <= q < gi ==> merged_process(#[trigger] out_procs@[q], gs[q], 1 + objects_before(gs, q)),
        decreases ng - gi,
    {
        assert(groups_view(groups@).len() == groups@.len());
        let ghost gbefore = groups@;
        let g = groups.remove(0);
        assert(g == gbefore[0]);
        proof {
            assert(groups_view(gbefore) == gs.skip(gi as int));
            assert(groups_view(gbefore)[0] == gs[gi as int]);
            assert forall|q: int| 0 <= q < groups@.len() implies groups_view(groups@)[q] == gs.skip(gi + 1)[q] by {
                assert(groups@[q] == gbefore[q + 1]);
                assert(groups_view(gbefore)[q + 1] == gs.skip(gi as int)[q + 1]);
            }
            assert(groups_view(groups@) =~= gs.skip(gi + 1));
            lemma_objects_before_mono(gs, gi + 1, gs.len() as int);
        }
        let ghost gv = gs[gi as int];
        assert(gv == (g.key@, g.name@, g.desc@, g.ctrls@));
        let ghost start = counter as nat;
        let ghost c0 = g.ctrls@;
        let mut ctrls = g.ctrls;
        let mut out_c: Vec<JsonValue> = Vec::new();
        let nc = ctrls.len();
        let mut k: usize = 0;
        assert(c0.take(0) =~= Seq::<JsonValue>::empty());
        while k < nc
            invariant
                k <= nc,
                nc == c0.len(),
                ctrls@ == c0.skip(k as int),
                start + object_count(c0) <= total + 1,
                total < usize::MAX,
                counter == start + object_count(c0.take(k as int)),
                out_c@.len() == k,
                forall|j: int| 0 <= j < k ==> renumbered(c0[j], #[trigger] out_c@[j], start + object_count(c0.take(j))),
            decreases nc - k,
        {
            let c = ctrls.remove(0);
            proof {
                assert(c == c0[k as int]);
                assert(ctrls@ =~= c0.skip(k + 1));
                lemma_object_count_step(c0, k as int);
                lemma_object_count_prefix(c0, k + 1);
            }
            let ghost n_here = counter as nat;
            match c {
                JsonValue::Object(mut e) => {
                    let ghost e0 = e@;
                    let num = fmt_usize(counter);
                    let mut label = chars_of("C-");
                    crate::text::extend_chars(&mut label, num.as_slice());
                    set_member(&mut e, key_string("control_ref"), JsonValue::Str(string_of(label.as_slice())));
                    out_c.push(JsonValue::Object(e));
                    counter = counter + 1;
                },
                other => {
                    out_c.push(other);
                },
            }
            proof {
                assert(renumbered(c0[k as int], out_c@[k as int], n_here));
            }
            k = k + 1;
        }
        assert(c0.take(nc as int) =~= c0);
        let name = g.name;
        let desc = g.desc;
        let ghost oc = out_c@;
        proof {
            reveal_strlit("process_name");
            reveal_strlit("description");
            reveal_strlit("controls");
            assert("process_name"@.len() == 12);
            assert("description"@.len() == 11);
            assert("controls"@.len() == 8);
        }
        let p = object3(
            "process_name",
            JsonValue::Str(name),
            "description",
            JsonValue::Str(desc),
            "controls",
            JsonValue::Array(out_c),
        );
        proof {
            assert(controls_renumbered(gv.3, oc, start));
            assert(merged_process(p, gv, start));
        }
        out_procs.push(p);
        gi = gi + 1;
    }
    proof {
        reveal_strlit("industry");
        reveal_strlit("regulatory_framework");
        reveal_strlit("processes");
        assert("industry"@.len() == 8);
        assert("regulatory_framework"@.len() == 20);
        assert("processes"@.len() == 9);
    }
    let ghost op = out_procs@;
    object3(
        "industry",
        JsonValue::Str(industry),
        "regulatory_framework",
        JsonValue::Str(framework),
        "processes",
        JsonValue::Array(out_procs),
    )
}

/// Every group is keyed by its name in lowercase, and no two groups share a
/// key.
pub open spec fn groups_distinct(gs: Seq<(Seq<char>, Seq<char>, Seq<char>, Seq<JsonValue>)>) -> bool {
    &&& forall|i: int| 0 <= i < gs.len() ==> #[trigger] gs[i].0 == lowercase(gs[i].1)
    &&& forall|i: int, j: int| 0 <= i < j < gs.len() ==> #[trigger] gs[i].0 != #[trigger] gs[j].0
}

proof fn lemma_add_process_distinct(gs: Seq<(Seq<char>, Seq<char>, Seq<char>, Seq<JsonValue>)>, p: JsonValue)
    requires
        groups_distinct(gs),
    ensures
        groups_distinct(add_process(gs, p)),
{
    let name = proc_name(p);
    if name.len() > 0 {
        let key = lowercase(name);
        lemma_first_index_from(gs, key_is(key), 0);
        match first_index(gs, key_is(key)) {
            Some(j) => {
                let r = add_process(gs, p);
                assert forall|i: int| 0 <= i < r.len() implies #[trigger] r[i].0 == gs[i].0 && r[i].1 == gs[i].1 by {}
            },
            None => {
                let r = add_process(gs, p);
                assert forall|i: int| 0 <= i < gs.len() implies #[trigger] gs[i].0 != key by {
                    assert(!key_is(key)(gs[i]));
                }
                assert forall|i: int, j: int| 0 <= i < j < r.len() implies #[trigger] r[i].0 != #[trigger] r[j].0 by {
                    if j == gs.len() {
                        assert(gs[i].0 != key);
                    }
                }
            },
        }
    }
}

proof fn lemma_add_processes_distinct(gs: Seq<(Seq<char>, Seq<char>, Seq<char>, Seq<JsonValue>)>, ps: Seq<JsonValue>)
    requires
        groups_distinct(gs),
    ensures
        groups_distinct(add_processes(gs, ps)),
    decreases ps.len(),
{
    if ps.len() > 0 {
        lemma_add_processes_distinct(gs, ps.drop_last());
        lemma_add_process_distinct(add_processes(gs, ps.drop_last()), ps.last());
    }
}

/// Merging leaves one process per name, compared without regard to case:
/// each merged process is keyed by its lowercase name and no two share it.
pub proof fn law_merged_names_distinct(plans: Seq<JsonValue>)
    ensures
        groups_distinct(merged_groups(plans)),
    decreases plans.len(),
{
    if plans.len() > 0 {
        law_merged_names_distinct(plans.drop_last());
        lemma_add_processes_distinct(merged_groups(plans.drop_last()), plan_processes(plans.last()));
    }
}

proof fn lemma_dec_nonempty(n: nat)
    ensures
        dec(n).len() >= 1,
        n >= 10 ==> dec(n).len() >= 2,
    decreases n,
{
    if n >= 10 {
        lemma_dec_nonempty(n / 10);
    }
}

proof fn lemma_digit_injective(x: nat, y: nat)
    requires
        x < 10,
        y < 10,
        crate::text::digit_char(x) == crate::text::digit_char(y),
    ensures
        x == y,
{
}

/// Different numbers are written differently.
proof fn lemma_dec_injective(a: nat, b: nat)
    requires
        dec(a) == dec(b),
    ensures
        a == b,
    decreases a,
{
    lemma_dec_nonempty(a);
    lemma_dec_nonempty(b);
    if a >= 10 && b >= 10 {
        assert(dec(a).drop_last() =~= dec(a / 10));
        assert(dec(b).drop_last() =~= dec(b / 10));
        assert(dec(a).last() == crate::text::digit_char(a % 10));
        assert(dec(b).last() == crate::text::digit_char(b % 10));
        lemma_digit_injective(a % 10, b % 10);
        lemma_dec_injective(a / 10, b / 10);
    } else if a < 10 && b < 10 {
        assert(dec(a) == seq![crate::text::digit_char(a)]);
        assert(dec(b) == seq![crate::text::digit_char(b)]);
        assert(seq![crate::text::digit_char(a)][0] == crate::text::digit_char(a));
        assert(seq![crate::text::digit_char(b)][0] == crate::text::digit_char(b));
        assert(dec(a)[0] == dec(b)[0]);
        lemma_digit_injective(a, b);
    }
}

proof fn lemma_ref_label_injective(a: nat, b: nat)
    requires
        ref_label(a) == ref_label(b),
    ensures
        a == b,
{
    let p = "C-"@;
    assert(ref_label(a).skip(p.len() as int) =~= dec(a));
    assert(ref_label(b).skip(p.len() as int) =~= dec(b));
    lemma_dec_injective(a, b);
}

proof fn lemma_object_count_mono(cs: Seq<JsonValue>, a: int, b: int)
    requires
        0 <= a <= b <= cs.len(),
    ensures
        object_count(cs.take(a)) <= object_count(cs.take(b)),
    decreases b - a,
{
    if a < b {
        lemma_object_count_step(cs, b - 1);
        lemma_object_count_mono(cs, a, b - 1);
    }
}

/// The control at (`i`, `j`) of the merged plan `out`.
pub open spec fn merged_control(out: JsonValue, i: int, j: int) -> JsonValue {
    let ps = array_of(field(out, "processes"@))->0;
    array_of(field(ps[i], "controls"@))->0[j]
}

/// The number of processes of the merged plan, and of controls of its
/// process `i`.
pub open spec fn merged_shape(out: JsonValue, i: int) -> (int, int) {
    let ps = array_of(field(out, "processes"@))->0;
    (ps.len() as int, array_of(field(ps[i], "controls"@))->0.len() as int)
}

/// Control refs are unique across the merged plan: any two numbered
/// controls at different places carry different refs.
pub proof fn law_merged_refs_unique(plans: Seq<JsonValue>, out: JsonValue, i1: int, j1: int, i2: int, j2: int)
    requires
        merged_plan(plans, out),
        0 <= i1 < merged_shape(out, i1).0,
        0 <= j1 < merged_shape(out, i1).1,
        0 <= i2 < merged_shape(out, i2).0,
        0 <= j2 < merged_shape(out, i2).1,
        (i1, j1) != (i2, j2),
        merged_control(out, i1, j1) is Object,
        merged_control(out, i2, j2) is Object,
    ensures
        str_of(field(merged_control(out, i1, j1), "control_ref"@)) != str_of(
            field(merged_control(out, i2, j2), "control_ref"@),
        ),
{
    let gs = merged_groups(plans);
    let ps = array_of(field(out, "processes"@))->0;
    assert(merged_process(ps[i1], gs[i1], 1 + objects_before(gs, i1)));
    assert(merged_process(ps[i2], gs[i2], 1 + objects_before(gs, i2)));
    let cs1 = array_of(field(ps[i1], "controls"@))->0;
    let cs2 = array_of(field(ps[i2], "controls"@))->0;
    let n1 = 1 + objects_before(gs, i1) + object_count(gs[i1].3.take(j1));
    let n2 = 1 + objects_before(gs, i2) + object_count(gs[i2].3.take(j2));
    assert(renumbered(gs[i1].3[j1], cs1[j1], n1 as nat));
    assert(renumbered(gs[i2].3[j2], cs2[j2], n2 as nat));
    assert(gs[i1].3[j1] is Object);
    assert(gs[i2].3[j2] is Object);
    assert(str_of(field(cs1[j1], "control_ref"@)) == Some(ref_label(n1 as nat)));
    assert(str_of(field(cs2[j2], "control_ref"@)) == Some(ref_label(n2 as nat)));
    // The numbers grow along the plan, so they differ.
    let (a_i, a_j, b_i, b_j) = if i1 < i2 || (i1 == i2 && j1 < j2) {
        (i1, j1, i2, j2)
    } else {
        (i2, j2, i1, j1)
    };
    let na = 1 + objects_before(gs, a_i) + object_count(gs[a_i].3.take(a_j));
    let nb = 1 + objects_before(gs, b_i) + object_count(gs[b_i].3.take(b_j));
    assert(gs[a_i].3[a_j] is Object);
    lemma_object_count_step(gs[a_i].3, a_j);
    if a_i == b_i {
        lemma_object_count_mono(gs[a_i].3, a_j + 1, b_j);
        assert(na < nb);
    } else {
        lemma_object_count_prefix(gs[a_i].3, a_j + 1);
        lemma_objects_before_mono(gs, a_i + 1, b_i);
        assert(objects_before(gs, a_i + 1) == objects_before(gs, a_i) + object_count(gs[a_i].3));
        assert(na < nb);
    }
    if ref_label(n1 as nat) == ref_label(n2 as nat) {
        lemma_ref_label_injective(n1 as nat, n2 as nat);
    }
}

/// The reference of a control added by hand after `count` others: `C-`
/// and the number `count + 1`, padded to two digits (`{:02}`).
pub open spec fn added_control_ref(count: nat) -> Seq<char> {
    let n = count + 1;
    if n < 10 {
        "C-0"@ + dec(n)
    } else {
        "C-"@ + dec(n)
    }
}

/// The reference given to a control added by hand to a process that has
/// `count` controls.
pub fn next_control_ref(count: usize) -> (r: String)
    requires
        count < usize::MAX,
    ensures
        r@ == added_control_ref(count as nat),
{
    let n = count + 1;
    let mut out: Vec<char> = Vec::new();
    out.push('C');
    out.push('-');
    if n < 10 {
        out.push('0');
    }
    let d = fmt_usize(n);
    let ghost o = out@;
    crate::text::extend_chars(&mut out, d.as_slice());
    proof {
        reveal_strlit("C-0");
        reveal_strlit("C-");
        if n < 10 {
            assert(o =~= "C-0"@);
        } else {
            assert(o =~= "C-"@);
        }
    }
    string_of(out.as_slice())
}

} // verus!
