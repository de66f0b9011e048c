//! Rewriting one process of the audit plan on the auditor's instruction:
//! the prompt that describes the process, and how the assistant's reply is
//! reconciled with the controls already saved.
use vstd::prelude::*;
use crate::json::{text_or, field, get_str, str_of, JsonValue};
use crate::model::{pair_strs, Control};
use crate::script_fix::{lemma_somes_step, somes};
use crate::seqs::{first_index, first_index_from, lemma_flatten_empty, lemma_flatten_step};
use crate::text::{chars_of, extend_chars, extend_str, str_eq, string_of, trim, trim_chars};

verus! {

// ───────────────────────────── the prompt ─────────────────────────────

/// One control as listed in the prompt.
pub open spec fn section_control_line(c: Control) -> Seq<char> {
    "- "@ + c.control_ref@ + " | "@ + c.control_objective@ + " | "@ + c.control_description@ + " | "@
        + c.test_procedure@ + " | "@ + c.risk_level@ + "\n"@
}

/// The prompt asking the assistant to rewrite a process: the instructions
/// `base`, the process with its controls, and the auditor's instruction.
pub open spec fn section_prompt_text(
    base: Seq<char>,
    name: Seq<char>,
    desc: Seq<char>,
    controls: Seq<Control>,
    instruction: Seq<char>,
) -> Seq<char> {
    base + "Current process:\nName: "@ + name + "\nDescription: "@ + desc + "\nControls:\n"@
        + controls.map_values(|c: Control| section_control_line(c)).flatten() + "\nUser instruction: "@
        + instruction
}

fn control_line_exec(c: &Control) -> (r: Vec<char>)
    ensures
        r@ == section_control_line(*c),
{
    let mut r = chars_of("- ");
    extend_str(&mut r, c.control_ref.as_str());
    extend_str(&mut r, " | ");
    extend_str(&mut r, c.control_objective.as_str());
    extend_str(&mut r, " | ");
    extend_str(&mut r, c.control_description.as_str());
    extend_str(&mut r, " | ");
    extend_str(&mut r, c.test_procedure.as_str());
    extend_str(&mut r, " | ");
    extend_str(&mut r, c.risk_level.as_str());
    extend_str(&mut r, "\n");
    r
}

/// The prompt for rewriting a process, or none when the instruction is
/// blank (nothing is sent then).
pub fn section_update_prompt(
    base: &str,
    name: &str,
    desc: &str,
    controls: &[Control],
    instruction: &str,
) -> (r: Option<String>)
    ensures
        trim(instruction@).len() == 0 ==> r is None,
        trim(instruction@).len() > 0 ==> (r matches Some(p) && p@ == section_prompt_text(
            base@,
            name@,
            desc@,
            controls@,
            instruction@,
        )),
{
    let t = trim_chars(chars_of(instruction).as_slice());
    if t.len() == 0 {
        return None;
    }
    let ghost f = |c: Control| section_control_line(c);
    let mut r = chars_of(base);
    extend_str(&mut r, "Current process:\nName: ");
    extend_str(&mut r, name);
    extend_str(&mut r, "\nDescription: ");
    extend_str(&mut r, desc);
    extend_str(&mut r, "\nControls:\n");
    let ghost head = r@;
    let mut body: Vec<char> = Vec::new();
    proof {
        lemma_flatten_empty(controls@, f);
    }
    let mut i: usize = 0;
    while i < controls.len()
        invariant
            i <= controls.len(),
            f == (|c: Control| section_control_line(c)),
            body@ == controls@.take(i as int).map_values(f).flatten(),
        decreases controls.len() - i,
    {
        let l = control_line_exec(&controls[i]);
        extend_chars(&mut body, l.as_slice());
        proof {
            lemma_flatten_step(controls@, f, i as int);
        }
        i = i + 1;
    }
    assert(controls@.take(controls.len() as int) =~= controls@);
    extend_chars(&mut r, body.as_slice());
    extend_str(&mut r, "\nUser instruction: ");
    extend_str(&mut r, instruction);
    Some(string_of(r.as_slice()))
}

// ───────────────────────────── the reply ─────────────────────────────

/// The control ref a reply item names, or the empty string.
pub open spec fn item_ref(item: JsonValue) -> Seq<char> {
    match str_of(field(item, "control_ref"@)) {
        Some(s) => s,
        None => Seq::empty(),
    }
}

/// The control refs that the reply's items give as strings.
pub open spec fn reply_refs(items: Seq<JsonValue>) -> Seq<Seq<char>> {
    somes(items.map_values(|c: JsonValue| str_of(field(c, "control_ref"@))))
}

/// The ids of the saved controls that the reply no longer lists, in order.
pub open spec fn dropped_ids(current: Seq<Control>, items: Seq<JsonValue>) -> Seq<Seq<char>> {
    current.filter(|c: Control| !reply_refs(items).contains(c.control_ref@)).map_values(|c: Control| c.id@)
}

fn reply_refs_exec(items: &[JsonValue]) -> (r: Vec<String>)
    ensures
        crate::model::strs(r@) == reply_refs(items@),
{
    let ghost f = |c: JsonValue| str_of(field(c, "control_ref"@));
    let ghost es = items@.map_values(f);
    let mut r: Vec<String> = Vec::new();
    let mut i: usize = 0;
    assert(es.take(0) =~= Seq::<Option<Seq<char>>>::empty());
    assert(crate::model::strs(r@) =~= Seq::<Seq<char>>::empty());
    while i < items.len()
        invariant
            i <= items.len(),
            f == (|c: JsonValue| str_of(field(c, "control_ref"@))),
            es == items@.map_values(f),
            crate::model::strs(r@) == somes(es.take(i as int)),
        decreases items.len() - i,
    {
        proof {
            lemma_somes_step(es, i as int);
        }
        match get_str(&items[i], "control_ref") {
            Some(s) => {
                let ghost p = crate::model::strs(r@);
                r.push(s.clone());
                assert(crate::model::strs(r@) =~= p.push(s@));
            },
            None => {},
        }
        i = i + 1;
    }
    assert(es.take(items.len() as int) =~= es);
    r
}


/// The ids of the saved controls to delete: those whose ref the reply's
/// controls no longer list.
pub fn section_deletions(current: &[Control], items: &[JsonValue]) -> (r: Vec<String>)
    ensures
        crate::model::strs(r@) == dropped_ids(current@, items@),
{
    let refs = reply_refs_exec(items);
    let ghost keep = |c: Control| !reply_refs(items@).contains(c.control_ref@);
    let ghost idf = |c: Control| c.id@;
    let mut r: Vec<String> = Vec::new();
    let mut i: usize = 0;
    assert(current@.take(0).filter(keep) =~= Seq::<Control>::empty());
    assert(crate::model::strs(r@) =~= Seq::<Seq<char>>::empty());
    while i < current.len()
        invariant
            i <= current.len(),
            crate::model::strs(refs@) == reply_refs(items@),
            keep == (|c: Control| !reply_refs(items@).contains(c.control_ref@)),
            idf == (|c: Control| c.id@),
            crate::model::strs(r@) == current@.take(i as int).filter(keep).map_values(idf),
        decreases current.len() - i,
    {
        proof {
            current@.take(i as int).lemma_filter_push(current@[i as int], keep);
            assert(current@.take(i + 1) =~= current@.take(i as int).push(current@[i as int]));
        }
        if !crate::model::contains_string(&refs, &current[i].control_ref) {
            let ghost p = crate::model::strs(r@);
            r.push(current[i].id.clone());
            assert(crate::model::strs(r@) =~= p.push(current@[i as int].id@));
            assert(current@.take(i as int).filter(keep).push(current@[i as int]).map_values(idf) =~= current@.take(
                i as int,
            ).filter(keep).map_values(idf).push(current@[i as int].id@));
        }
        i = i + 1;
    }
    assert(current@.take(current.len() as int) =~= current@);
    r
}

/// What to do for one control of the reply.
pub enum SectionStep {
    /// The saved control with the reply's ref, with the reply's fields
    /// applied, and the (field, value) pairs to save.
    Update { control: Control, changes: Vec<(String, String)> },
    /// A new control to add with these fields.
    Add {
        control_ref: String,
        control_objective: String,
        control_description: String,
        test_procedure: String,
        risk_level: String,
    },
}


/// The editable fields of a control, in the order they are saved.
pub open spec fn editable_fields() -> Seq<Seq<char>> {
    seq!["control_ref"@, "control_objective"@, "control_description"@, "test_procedure"@, "risk_level"@]
}

/// The (field, value) pairs that the item gives as strings, in that order.
pub open spec fn field_changes(item: JsonValue) -> Seq<(Seq<char>, Seq<char>)> {
    somes(
        editable_fields().map_values(
            |k: Seq<char>|
                match str_of(field(item, k)) {
                    Some(v) => Some((k, v)),
                    None => None,
                },
        ),
    )
}

/// The saved control `old` with the item's fields applied (the id kept).
pub open spec fn control_updated(new: Control, old: Control, item: JsonValue) -> bool {
    &&& new.id@ == old.id@
    &&& new.control_ref@ == text_or(item, "control_ref"@, old.control_ref@)
    &&& new.control_objective@ == text_or(item, "control_objective"@, old.control_objective@)
    &&& new.control_description@ == text_or(item, "control_description"@, old.control_description@)
    &&& new.test_procedure@ == text_or(item, "test_procedure"@, old.test_procedure@)
    &&& new.risk_level@ == text_or(item, "risk_level"@, old.risk_level@)
}


/// The saved control has the item's ref.
pub open spec fn ref_matches(item: JsonValue) -> spec_fn(Control) -> bool {
    |c: Control| c.control_ref@ == item_ref(item)
}

/// The step for one item of the reply: update the first saved control with
/// its ref, else add a new control (the risk defaulting to `Medium`, the
/// other fields to the empty string).
pub open spec fn step_for(s: SectionStep, current: Seq<Control>, item: JsonValue) -> bool {
    match first_index(current, ref_matches(item)) {
        Some(k) => match s {
            SectionStep::Update { control, changes } => control_updated(control, current[k], item)
                && pair_strs(changes@) == field_changes(item),
            _ => false,
        },
        None => match s {
            SectionStep::Add { control_ref, control_objective, control_description, test_procedure, risk_level } => {
                &&& control_ref@ == text_or(item, "control_ref"@, Seq::empty())
                &&& control_objective@ == text_or(item, "control_objective"@, Seq::empty())
                &&& control_description@ == text_or(item, "control_description"@, Seq::empty())
                &&& test_procedure@ == text_or(item, "test_procedure"@, Seq::empty())
                &&& risk_level@ == text_or(item, "risk_level"@, "Medium"@)
            },
            _ => false,
        },
    }
}

fn text_or_exec(item: &JsonValue, key: &str, default: &str) -> (r: String)
    ensures
        r@ == text_or(*item, key@, default@),
{
    match get_str(item, key) {
        Some(s) => s.clone(),
        None => string_of(chars_of(default).as_slice()),
    }
}

fn field_changes_exec(item: &JsonValue) -> (r: Vec<(String, String)>)
    ensures
        pair_strs(r@) == field_changes(*item),
{
    let ghost f = |k: Seq<char>|
        match str_of(field(*item, k)) {
            Some(v) => Some((k, v)),
            None => None,
        };
    let ghost es = editable_fields().map_values(f);
    let keys: [&str; 5] = ["control_ref", "control_objective", "control_description", "test_procedure", "risk_level"];
    proof {
        reveal_strlit("control_ref");
        reveal_strlit("control_objective");
        reveal_strlit("control_description");
        reveal_strlit("test_procedure");
        reveal_strlit("risk_level");
    }
    assert(keys@.map_values(|k: &str| k@) =~= editable_fields());
    let mut r: Vec<(String, String)> = Vec::new();
    let mut i: usize = 0;
    assert(es.take(0) =~= Seq::<Option<(Seq<char>, Seq<char>)>>::empty());
    assert(pair_strs(r@) =~= Seq::<(Seq<char>, Seq<char>)>::empty());
    while i < 5
        invariant
            i <= 5,
            keys@.map_values(|k: &str| k@) == editable_fields(),
            f == (|k: Seq<char>|
                match str_of(field(*item, k)) {
                    Some(v) => Some((k, v)),
                    None => None,
                }),
            es == editable_fields().map_values(f),
            pair_strs(r@) == somes(es.take(i as int)),
        decreases 5 - i,
    {
        proof {
            lemma_somes_step(es, i as int);
            assert(keys@[i as int]@ == editable_fields()[i as int]);
        }
        let k = keys[i];
        match get_str(item, k) {
            Some(v) => {
                let ghost p = pair_strs(r@);
                r.push((string_of(chars_of(k).as_slice()), v.clone()));
                assert(pair_strs(r@) =~= p.push((k@, v@)));
            },
            None => {},
        }
        i = i + 1;
    }
    assert(es.take(5) =~= es);
    r
}

fn find_by_ref(current: &[Control], r: &str) -> (k: Option<usize>)
    ensures
        k matches Some(f) ==> f < current.len() && current@[f as int].control_ref@ == r@ && forall|j: int|
            0 <= j < f ==> current@[j].control_ref@ != r@,
        k is None ==> forall|j: int| 0 <= j < current.len() ==> current@[j].control_ref@ != r@,
{
    let mut i: usize = 0;
    while i < current.len()
        invariant
            i <= current.len(),
            forall|j: int| 0 <= j < i ==> current@[j].control_ref@ != r@,
        decreases current.len() - i,
    {
        if str_eq(current[i].control_ref.as_str(), r) {
            return Some(i);
        }
        i = i + 1;
    }
    None
}

/// What to do for each control of the reply, in the reply's order: update
/// the saved control with its ref, or add a new one.
pub fn section_steps(current: &[Control], items: &[JsonValue]) -> (r: Vec<SectionStep>)
    ensures
        r.len() == items.len(),
        forall|i: int| 0 <= i < items.len() ==> step_for(#[trigger] r@[i], current@, items@[i]),
{
    let mut r: Vec<SectionStep> = Vec::new();
    let mut i: usize = 0;
    while i < items.len()
        invariant
            i <= items.len(),
            r.len() == i,
            forall|j: int| 0 <= j < i ==> step_for(#[trigger] r@[j], current@, items@[j]),
        decreases items.len() - i,
    {
        let item = &items[i];
        let ir = text_or_exec(item, "control_ref", "");
        proof {
            reveal_strlit("");
            assert(ir@ == item_ref(*item));
        }
        let ghost p = ref_matches(*item);
        let step = match find_by_ref(current, ir.as_str()) {
            Some(k) => {
                let e = &current[k];
                proof {
                    crate::seqs::lemma_first_index_from(current@, p, 0);
                    assert(p(current@[k as int]));
                    assert forall|j: int| 0 <= j < k implies !p(#[trigger] current@[j]) by {}
                    assert(first_index(current@, p) == Some(k as int));
                }
                let control = Control {
                    id: e.id.clone(),
                    control_ref: text_or_exec(item, "control_ref", e.control_ref.as_str()),
                    control_objective: text_or_exec(item, "control_objective", e.control_objective.as_str()),
                    control_description: text_or_exec(item, "control_description", e.control_description.as_str()),
                    test_procedure: text_or_exec(item, "test_procedure", e.test_procedure.as_str()),
                    risk_level: text_or_exec(item, "risk_level", e.risk_level.as_str()),
                };
                let st = SectionStep::Update { control, changes: field_changes_exec(item) };
                assert(step_for(st, current@, *item));
                st
            },
            None => {
                proof {
                    crate::seqs::lemma_first_index_from(current@, p, 0);
                    if first_index(current@, p) is Some {
                        let f = first_index(current@, p)->0;
                        assert(p(current@[f]));
                    }
                }
                let st = SectionStep::Add {
                    control_ref: text_or_exec(item, "control_ref", ""),
                    control_objective: text_or_exec(item, "control_objective", ""),
                    control_description: text_or_exec(item, "control_description", ""),
                    test_procedure: text_or_exec(item, "test_procedure", ""),
                    risk_level: text_or_exec(item, "risk_level", "Medium"),
                };
                proof {
                    reveal_strlit("Medium");
                    reveal_strlit("");
                    assert(""@ =~= Seq::<char>::empty());
                }
                assert(step_for(st, current@, *item));
                st
            },
        };
        r.push(step);
        assert(r@[i as int] == step);
        i = i + 1;
    }
    r
}

proof fn lemma_somes_contains<A>(xs: Seq<Option<A>>, i: int)
    requires
        0 <= i < xs.len(),
        xs[i] is Some,
    ensures
        somes(xs).contains(xs[i]->0),
    decreases xs.len(),
{
    if i == xs.len() - 1 {
        assert(somes(xs).last() == xs[i]->0);
    } else {
        assert(xs.drop_last()[i] == xs[i]);
        lemma_somes_contains(xs.drop_last(), i);
        let p = somes(xs.drop_last());
        let k = choose|k: int| 0 <= k < p.len() && p[k] == xs[i]->0;
        match xs.last() {
            Some(a) => {
                assert(somes(xs)[k] == p[k]);
            },
            None => {},
        }
    }
}

/// When every control of the reply names its ref, a saved control that a
/// step updates is never among those deleted.
pub proof fn law_updated_not_deleted(current: Seq<Control>, items: Seq<JsonValue>)
    requires
        forall|i: int| 0 <= i < items.len() ==> (#[trigger] str_of(field(items[i], "control_ref"@))) is Some,
    ensures
        forall|i: int| #![trigger items[i]]
            0 <= i < items.len() ==> (first_index(current, ref_matches(items[i])) matches Some(k) ==> !current.filter(
                |c: Control| !reply_refs(items).contains(c.control_ref@),
            ).contains(current[k])),
{
    let dropped = |c: Control| !reply_refs(items).contains(c.control_ref@);
    assert forall|i: int| 0 <= i < items.len() implies (first_index(current, ref_matches(#[trigger] items[i])) matches Some(
        k,
    ) ==> !current.filter(dropped).contains(current[k])) by {
        let p = ref_matches(items[i]);
        crate::seqs::lemma_first_index_from(current, p, 0);
        if let Some(k) = first_index(current, p) {
            let f = |c: JsonValue| str_of(field(c, "control_ref"@));
            let xs = items.map_values(f);
            assert(xs[i] == str_of(field(items[i], "control_ref"@)));
            lemma_somes_contains(xs, i);
            assert(reply_refs(items).contains(item_ref(items[i])));
            assert(current[k].control_ref@ == item_ref(items[i]));
            if current.filter(dropped).contains(current[k]) {
                current.lemma_filter_contains_rev(dropped, current[k]);
                let j = choose|j: int| 0 <= j < current.filter(dropped).len() && current.filter(dropped)[j] == current[k];
                current.lemma_filter_pred(dropped, j);
            }
        }
    }
}

} // verus!
