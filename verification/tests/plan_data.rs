use vinrouge_web::requests::{after_reply, plan_reply_usable, plan_sections_outcome, section_to_ask, start_sections};
use vinrouge_web::json::{get_array, get_str, JsonNumber, JsonValue};
use vinrouge_web::model::{AuditProcessWithControls, Control, PbcGroup, PbcItem};
use vinrouge_web::pbc::{
    approved_item_ids, generation_outcome, group_approved_count, json_strings, merge_fields, parse_field_list,
    pbc_item_request, pbc_items, remove_fields, request_counts, set_approved, sync_prompt,
};
use vinrouge_web::plans::{merge_plans, next_control_ref};

fn js(s: &str) -> JsonValue {
    JsonValue::Str(s.to_string())
}

fn jobj(entries: Vec<(&str, JsonValue)>) -> JsonValue {
    JsonValue::Object(entries.into_iter().map(|(k, v)| (k.to_string(), v)).collect())
}

fn jarr(items: Vec<JsonValue>) -> JsonValue {
    JsonValue::Array(items)
}

fn sv(v: &[&str]) -> Vec<String> {
    v.iter().map(|s| s.to_string()).collect()
}

fn ctrl(id: &str, cref: &str) -> Control {
    Control {
        id: id.to_string(),
        control_ref: cref.to_string(),
        control_objective: String::new(),
        control_description: String::new(),
        test_procedure: String::new(),
        risk_level: String::new(),
    }
}

fn process_json(name: &str, desc: &str, controls: Vec<JsonValue>) -> JsonValue {
    jobj(vec![("process_name", js(name)), ("description", js(desc)), ("controls", jarr(controls))])
}

fn refs_of(p: &JsonValue) -> Vec<String> {
    get_array(p, "controls")
        .unwrap()
        .iter()
        .map(|c| get_str(c, "control_ref").unwrap().clone())
        .collect()
}

#[test]
fn merge_plans_joins_processes_by_name_and_renumbers() {
    let a = jobj(vec![
        ("industry", js("")),
        (
            "processes",
            jarr(vec![
                process_json("Claims", "first", vec![jobj(vec![("control_ref", js("X-9")), ("risk_level", js("High"))])]),
                process_json("", "skipped", vec![jobj(vec![])]),
            ]),
        ),
    ]);
    let b = jobj(vec![
        ("industry", js("Insurance")),
        ("regulatory_framework", js("IFRS 17")),
        (
            "processes",
            jarr(vec![
                process_json("claims", "second", vec![jobj(vec![]), JsonValue::Null]),
                process_json("Payroll", "pay", vec![jobj(vec![("control_ref", js("C-1"))])]),
            ]),
        ),
    ]);
    let out = merge_plans(vec![a, b]);
    assert_eq!(get_str(&out, "industry").unwrap(), "Insurance");
    assert_eq!(get_str(&out, "regulatory_framework").unwrap(), "IFRS 17");
    let ps = get_array(&out, "processes").unwrap();
    assert_eq!(ps.len(), 2);
    assert_eq!(get_str(&ps[0], "process_name").unwrap(), "Claims");
    assert_eq!(get_str(&ps[0], "description").unwrap(), "first");
    let cs = get_array(&ps[0], "controls").unwrap();
    assert_eq!(cs.len(), 3);
    assert_eq!(get_str(&cs[0], "control_ref").unwrap(), "C-1");
    assert_eq!(get_str(&cs[0], "risk_level").unwrap(), "High");
    assert_eq!(get_str(&cs[1], "control_ref").unwrap(), "C-2");
    assert!(matches!(cs[2], JsonValue::Null));
    assert_eq!(refs_of(&ps[1]), vec!["C-3".to_string()]);
}

#[test]
fn merge_plans_of_nothing() {
    let out = merge_plans(vec![]);
    assert_eq!(get_str(&out, "industry").unwrap(), "");
    assert_eq!(get_str(&out, "regulatory_framework").unwrap(), "");
    assert_eq!(get_array(&out, "processes").unwrap().len(), 0);
}

#[test]
fn control_ref_for_added_control() {
    assert_eq!(next_control_ref(0), "C-01");
    assert_eq!(next_control_ref(8), "C-09");
    assert_eq!(next_control_ref(9), "C-10");
    assert_eq!(next_control_ref(123), "C-124");
}

#[test]
fn merge_and_remove_fields() {
    let merged = merge_fields(&sv(&["a", "b"]), &sv(&["b", "c", "c", "d"]));
    assert_eq!(merged, sv(&["a", "b", "c", "d"]));
    let left = remove_fields(&sv(&["a", "b", "c", "b"]), &sv(&["b", "z"]));
    assert_eq!(left, sv(&["a", "c"]));
}

#[test]
fn field_list_is_trimmed_and_blank_free() {
    assert_eq!(parse_field_list(" id , amount,, date "), sv(&["id", "amount", "date"]));
    assert_eq!(parse_field_list("   "), Vec::<String>::new());
}

#[test]
fn approval_lists_each_item_once() {
    let mut ids = sv(&["a"]);
    set_approved(&mut ids, "b".to_string(), true);
    set_approved(&mut ids, "b".to_string(), true);
    assert_eq!(ids, sv(&["a", "b"]));
    set_approved(&mut ids, "a".to_string(), false);
    assert_eq!(ids, sv(&["b"]));
    assert!(!ids.contains(&"a".to_string()));
}

#[test]
fn approved_ids_group_by_group() {
    let item = |id: &str, ok: bool| PbcItem {
        id: id.to_string(),
        name: String::new(),
        control_ref: String::new(),
        table_name: None,
        fields: vec![],
        purpose: String::new(),
        item_type: "SQL".to_string(),
        scope_format: String::new(),
        approved: ok,
    };
    let groups = vec![
        PbcGroup { control_id: "1".into(), control_ref: "C-1".into(), title: String::new(), process_name: String::new(), items: vec![item("x", true), item("y", false)] },
        PbcGroup { control_id: "2".into(), control_ref: "C-2".into(), title: String::new(), process_name: String::new(), items: vec![item("z", true)] },
    ];
    assert_eq!(approved_item_ids(&groups), sv(&["x", "z"]));
}

#[test]
fn json_strings_skips_non_strings() {
    let v = jobj(vec![("fields", jarr(vec![js("a"), JsonValue::Bool(true), js("b")]))]);
    assert_eq!(json_strings(&v, "fields"), sv(&["a", "b"]));
    assert_eq!(json_strings(&v, "missing"), Vec::<String>::new());
}

#[test]
fn pbc_request_defaults_and_aliases() {
    let plan = vec![AuditProcessWithControls {
        process_name: "P".into(),
        description: String::new(),
        controls: vec![ctrl("id-1", "C-1"), ctrl("id-2", "C-2")],
    }];
    let item = jobj(vec![
        ("controlRef", js("C-2")),
        ("name", js("Ledger")),
        ("tableName", js("gl")),
        ("fields", jarr(vec![js("amt")])),
    ]);
    let r = pbc_item_request(&item, &plan).ok().unwrap();
    assert_eq!(r.control_id, "id-2");
    assert_eq!(r.control_ref, "C-2");
    assert_eq!(r.name, "Ledger");
    assert_eq!(r.item_type, "SQL");
    assert_eq!(r.table_name, Some("gl".to_string()));
    assert_eq!(r.fields, sv(&["amt"]));
    assert_eq!(r.purpose, "");
    assert_eq!(r.scope_format, "Audit period");
    let typed = jobj(vec![("control_ref", js("C-1")), ("type", js("Excel")), ("scope_format", js("FY24"))]);
    let r2 = pbc_item_request(&typed, &plan).ok().unwrap();
    assert_eq!(r2.item_type, "Excel");
    assert_eq!(r2.scope_format, "FY24");
    assert_eq!(r2.table_name, None);
}

#[test]
fn pbc_request_unknown_ref_is_an_error() {
    let plan = vec![AuditProcessWithControls { process_name: "P".into(), description: String::new(), controls: vec![ctrl("1", "C-1")] }];
    let item = jobj(vec![("control_ref", js("C-7"))]);
    assert_eq!(pbc_item_request(&item, &plan).err(), Some("C-7".to_string()));
}

#[test]
fn generation_messages() {
    assert_eq!(generation_outcome(0, &[]), Some("Nothing saved. No items in response.".to_string()));
    assert_eq!(
        generation_outcome(0, &sv(&["C-1", "C-2"])),
        Some("Nothing saved. Unmatched/failed control refs: C-1, C-2".to_string())
    );
    assert_eq!(generation_outcome(3, &sv(&["C-9"])), Some("Saved 3 items. Could not match: C-9".to_string()));
    assert_eq!(generation_outcome(3, &[]), None);
}

#[test]
fn pbc_items_needs_a_non_empty_list() {
    let r = pbc_items(jobj(vec![("items", jarr(vec![js("a")]))]));
    assert_eq!(r.map(|v| v.len()), Some(1));
    assert!(pbc_items(jobj(vec![("items", jarr(vec![]))])).is_none());
    assert!(pbc_items(jobj(vec![("items", JsonValue::Number(JsonNumber::PosInt(1)))])).is_none());
    assert!(pbc_items(JsonValue::Null).is_none());
}

fn request_item(id: &str, kind: &str, table: Option<&str>) -> PbcItem {
    PbcItem {
        id: id.to_string(),
        name: format!("Req {id}"),
        control_ref: "C-1".to_string(),
        table_name: table.map(|t| t.to_string()),
        fields: sv(&["a", "b"]),
        purpose: "why".to_string(),
        item_type: kind.to_string(),
        scope_format: "FY".to_string(),
        approved: false,
    }
}

#[test]
fn request_counters_and_group_approvals() {
    let groups = vec![
        PbcGroup {
            control_id: "1".into(),
            control_ref: "C-1".into(),
            title: "T1".into(),
            process_name: "P".into(),
            items: vec![request_item("x", "SQL", None), request_item("y", "CSV", Some("gl"))],
        },
        PbcGroup { control_id: "2".into(), control_ref: "C-2".into(), title: "T2".into(), process_name: "P".into(), items: vec![] },
        PbcGroup {
            control_id: "3".into(),
            control_ref: "C-3".into(),
            title: "T3".into(),
            process_name: "P".into(),
            items: vec![request_item("z", "SQL", None)],
        },
    ];
    assert_eq!(request_counts(&groups, "SQL"), (3, 2));
    assert_eq!(request_counts(&groups, "CSV"), (3, 1));
    assert_eq!(group_approved_count(&groups[0], &sv(&["y", "z"])), 1);
    assert_eq!(group_approved_count(&groups[1], &sv(&["y"])), 0);
    let plan = vec![AuditProcessWithControls {
        process_name: "P".into(),
        description: String::new(),
        controls: vec![Control {
            id: "1".into(),
            control_ref: "C-1".into(),
            control_objective: "obj".into(),
            control_description: "d".into(),
            test_procedure: "tp".into(),
            risk_level: "High".into(),
        }],
    }];
    assert_eq!(
        sync_prompt("SYNC", &plan, &groups),
        "SYNC\nAUDIT PLAN:\nProcess: P\n  Control C-1: objective=obj | procedure=tp | risk=High\n\nPBC DATA REQUESTS:\nControl C-1: T1\n  - Req x [SQL] table:\u{2014} fields:a, b purpose:why scope:FY\n  - Req y [CSV] table:gl fields:a, b purpose:why scope:FY\nControl C-3: T3\n  - Req z [SQL] table:\u{2014} fields:a, b purpose:why scope:FY\n"
    );
}

#[test]
fn section_requests_retry_once_then_drop() {
    let mut run = start_sections(2);
    assert_eq!(section_to_ask(&run), Some((0, false)));
    run = after_reply(run, false);
    assert_eq!(section_to_ask(&run), Some((0, true)));
    run = after_reply(run, false);
    assert_eq!(section_to_ask(&run), Some((1, false)));
    assert_eq!(plan_sections_outcome(&run), Err("No valid audit plan sections were generated.".to_string()));
    run = after_reply(run, true);
    assert_eq!(section_to_ask(&run), None);
    assert_eq!(run.kept, 1);
    assert_eq!(plan_sections_outcome(&run), Ok(()));
    let with = jobj(vec![("processes", jarr(vec![js("p")]))]);
    let without = || jobj(vec![("processes", jarr(vec![]))]);
    assert!(plan_reply_usable(&Some(with), false));
    assert!(!plan_reply_usable(&Some(without()), false));
    assert!(plan_reply_usable(&Some(without()), true));
    assert!(!plan_reply_usable(&None, true));
}
