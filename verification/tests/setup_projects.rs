use vinrouge_web::json::JsonValue;
use vinrouge_web::model::{AuditProcessWithControls, Control};
use vinrouge_web::projects::{
    crumb_class, crumb_click, merge_suggested_standards, project_matches, standards_summary, toggle_choice,
    wizard_details_valid, wizard_step_class,
};
use vinrouge_web::requests::{
    counted_progress, pbc_progress, pbc_prompt, pbc_retry_prompt, plan_retry_prompt, section_prompt,
    PBC_CHUNK_PROCESSES,
};
use vinrouge_web::sections::{section_deletions, section_steps, section_update_prompt, SectionStep};
use vinrouge_web::setup::{
    can_generate_plan, setup_status, sop_file_index, add_scope_by_hand, add_scope_items, add_standard_by_hand, apply_setup_changes, remove_scope_items,
    setup_assistant_prompt, setup_changes, unchoose_named_standards,
};

fn strings(v: &[&str]) -> Vec<String> {
    v.iter().map(|s| s.to_string()).collect()
}

fn choices(v: &[(&str, bool)]) -> Vec<(String, bool)> {
    v.iter().map(|(s, b)| (s.to_string(), *b)).collect()
}

fn jstr(s: &str) -> JsonValue {
    JsonValue::Str(s.to_string())
}

fn jobject(entries: Vec<(&str, JsonValue)>) -> JsonValue {
    JsonValue::Object(entries.into_iter().map(|(k, v)| (k.to_string(), v)).collect())
}

fn saved_control(id: &str, cref: &str, obj: &str) -> Control {
    Control {
        id: id.to_string(),
        control_ref: cref.to_string(),
        control_objective: obj.to_string(),
        control_description: "desc".to_string(),
        test_procedure: "test".to_string(),
        risk_level: "Low".to_string(),
    }
}

#[test]
fn project_search_ignores_case() {
    assert!(project_matches("Acme Audit 2024", "AUDIT"));
    assert!(project_matches("Acme", ""));
    assert!(!project_matches("Acme", "beta"));
}

#[test]
fn wizard_needs_name_client_and_period() {
    assert!(wizard_details_valid("Audit", "Acme", "2024-01-01", "2024-12-31"));
    assert!(!wizard_details_valid("   ", "Acme", "2024-01-01", "2024-12-31"));
    assert!(!wizard_details_valid("Audit", "Acme", "", "2024-12-31"));
}

#[test]
fn standards_line_and_toggle() {
    assert_eq!(standards_summary(&[]), "Select at least one standard");
    assert_eq!(standards_summary(&strings(&["ISA 315", "IFRS 9"])), "ISA 315, IFRS 9 selected");
    let mut chosen = strings(&["ISA 315"]);
    toggle_choice(&mut chosen, "IFRS 9".to_string());
    assert_eq!(chosen, strings(&["ISA 315", "IFRS 9"]));
    toggle_choice(&mut chosen, "ISA 315".to_string());
    assert_eq!(chosen, strings(&["IFRS 9"]));
}

#[test]
fn suggested_standards_are_chosen() {
    let mut cur = choices(&[("ISA 315", false), ("IFRS 9", false)]);
    merge_suggested_standards(&mut cur, &strings(&["isa 315", "King IV"]));
    assert_eq!(cur, choices(&[("ISA 315", true), ("IFRS 9", false), ("King IV", true)]));
}

#[test]
fn setup_changes_read_from_reply() {
    let reply = jobject(vec![
        ("standards_add", JsonValue::Array(vec![jstr("King IV"), JsonValue::Null])),
        ("scope_remove", JsonValue::Array(vec![jstr("Payroll")])),
    ]);
    let c = setup_changes(&reply);
    assert_eq!(c.summary, "Changes applied");
    assert_eq!(c.standards_add, strings(&["King IV"]));
    assert!(c.standards_remove.is_empty());
    assert!(c.scope_add.is_empty());
    assert_eq!(c.scope_remove, strings(&["Payroll"]));
    let with_summary = jobject(vec![("summary", jstr("Added King IV"))]);
    assert_eq!(setup_changes(&with_summary).summary, "Added King IV");
}

#[test]
fn unchoosing_standards() {
    let mut cur = choices(&[("ISA 315", true), ("isa 315", true), ("IFRS 9", true)]);
    unchoose_named_standards(&mut cur, &strings(&["ISA 315", "missing"]));
    assert_eq!(cur, choices(&[("ISA 315", false), ("isa 315", true), ("IFRS 9", true)]));
}

#[test]
fn scope_additions_and_removals() {
    let mut scope = strings(&["Claims"]);
    add_scope_items(&mut scope, &strings(&["claims", "Payroll", "Payroll"]));
    assert_eq!(scope, strings(&["Claims", "Payroll"]));
    remove_scope_items(&mut scope, &strings(&["CLAIMS"]));
    assert_eq!(scope, strings(&["Payroll"]));
    let mut dup = strings(&["A", "a", "b"]);
    remove_scope_items(&mut dup, &strings(&["a"]));
    assert_eq!(dup, strings(&["b"]));
}

#[test]
fn setup_changes_applied_in_order() {
    let reply = jobject(vec![
        ("standards_add", JsonValue::Array(vec![jstr("King IV")])),
        ("standards_remove", JsonValue::Array(vec![jstr("king iv")])),
        ("scope_add", JsonValue::Array(vec![jstr("Treasury")])),
        ("scope_remove", JsonValue::Array(vec![jstr("treasury")])),
    ]);
    let c = setup_changes(&reply);
    let mut stds = choices(&[("ISA 315", true)]);
    let mut scope = strings(&["Claims"]);
    apply_setup_changes(&mut stds, &mut scope, &c);
    assert_eq!(stds, choices(&[("ISA 315", true), ("King IV", false)]));
    assert_eq!(scope, strings(&["Claims"]));
}

#[test]
fn section_prompt_lists_controls() {
    let ctrls = vec![saved_control("1", "C-1", "Approve")];
    assert_eq!(
        section_update_prompt("BASE\n", "Claims", "Pay", &ctrls, "merge controls"),
        Some(
            "BASE\nCurrent process:\nName: Claims\nDescription: Pay\nControls:\n- C-1 | Approve | desc | test | Low\n\nUser instruction: merge controls"
                .to_string()
        )
    );
    assert_eq!(section_update_prompt("BASE", "Claims", "Pay", &ctrls, "  \n"), None);
}

#[test]
fn section_reply_reconciled_with_saved_controls() {
    let current = vec![saved_control("1", "C-1", "Old"), saved_control("2", "C-2", "Keep")];
    let items = vec![
        jobject(vec![("control_ref", jstr("C-2")), ("control_objective", jstr("New objective"))]),
        jobject(vec![("control_ref", jstr("C-3")), ("test_procedure", jstr("Inspect"))]),
    ];
    assert_eq!(section_deletions(&current, &items), strings(&["1"]));
    let steps = section_steps(&current, &items);
    assert_eq!(steps.len(), 2);
    match &steps[0] {
        SectionStep::Update { control, changes } => {
            assert_eq!(control.id, "2");
            assert_eq!(control.control_ref, "C-2");
            assert_eq!(control.control_objective, "New objective");
            assert_eq!(control.test_procedure, "test");
            assert_eq!(
                changes,
                &vec![
                    ("control_ref".to_string(), "C-2".to_string()),
                    ("control_objective".to_string(), "New objective".to_string()),
                ]
            );
        },
        _ => panic!("expected an update"),
    }
    match &steps[1] {
        SectionStep::Add { control_ref, control_objective, control_description, test_procedure, risk_level } => {
            assert_eq!(control_ref, "C-3");
            assert_eq!(control_objective, "");
            assert_eq!(control_description, "");
            assert_eq!(test_procedure, "Inspect");
            assert_eq!(risk_level, "Medium");
        },
        _ => panic!("expected an addition"),
    }
}

#[test]
fn progress_and_retry_texts() {
    assert_eq!(PBC_CHUNK_PROCESSES, 3);
    assert_eq!(pbc_progress(1, 2, 5), "Generating data requests: processes 4 \u{2013} 5 of 5\u{2026}");
    assert_eq!(pbc_progress(0, 3, 7), "Generating data requests: processes 1 \u{2013} 3 of 7\u{2026}");
    assert_eq!(counted_progress("Retrying chunk", 2, 3), "Retrying chunk 2 of 3\u{2026}");
    assert_eq!(
        pbc_retry_prompt("P"),
        "CRITICAL: Your response was missing the required 'items' array or was invalid. Return ONLY valid JSON with an 'items' array of data request objects.\n\nOriginal request:\nP"
    );
    assert_eq!(
        plan_retry_prompt("P"),
        "CRITICAL: Your previous response was missing the required 'processes' array or was structurally invalid. Return ONLY valid JSON with a 'processes' array.\n\nOriginal request:\nP"
    );
}

#[test]
fn section_and_pbc_prompts() {
    assert_eq!(section_prompt("BASE", 0, 1, "text"), "BASE\n\ntext");
    assert_eq!(
        section_prompt("BASE", 1, 3, "text"),
        "BASE\n[Document is split into 3 sections for processing. This is section 2 of 3. Analyse ONLY the content below \u{2014} do not fabricate content for sections not shown. Sections are merged after all have been processed.]\n\ntext"
    );
    let chunk = vec![AuditProcessWithControls {
        process_name: "P".to_string(),
        description: "D".to_string(),
        controls: vec![],
    }];
    assert_eq!(pbc_prompt("GEN", &chunk), "GEN\n\nProcess: P\nDescription: D\n\n");
}

#[test]
fn step_trail_classes_and_clicks() {
    assert_eq!(crumb_class(1, 1), ("audit-step-num active", "audit-step-label active"));
    assert_eq!(crumb_class(3, 1), ("audit-step-num done", "audit-step-label muted"));
    assert_eq!(crumb_class(3, 2), ("audit-step-num pending", "audit-step-label muted"));
    assert_eq!(crumb_class(4, 3), ("audit-step-num done", "audit-step-label active"));
    assert_eq!(crumb_class(3, 3), ("audit-step-num active", "audit-step-label active"));
    assert_eq!(crumb_class(5, 4), ("audit-step-num done", "audit-step-label active"));
    assert_eq!(crumb_class(2, 4), ("audit-step-num pending", "audit-step-label muted"));
    assert_eq!(crumb_class(5, 5), ("audit-step-num pending", "audit-step-label muted"));
    assert_eq!(crumb_click(4, 1), Some(1));
    assert_eq!(crumb_click(4, 3), Some(3));
    assert_eq!(crumb_click(2, 3), None);
    assert_eq!(crumb_click(5, 4), Some(4));
    assert_eq!(crumb_click(4, 4), None);
    assert_eq!(crumb_click(5, 2), None);
}

#[test]
fn wizard_step_classes() {
    assert_eq!(wizard_step_class(2, 2), "wiz-step wiz-step--active");
    assert_eq!(wizard_step_class(2, 1), "wiz-step wiz-step--done");
    assert_eq!(wizard_step_class(2, 3), "wiz-step");
}

#[test]
fn entries_typed_by_hand() {
    let mut stds = choices(&[("ISA 315", true)]);
    assert!(add_standard_by_hand(&mut stds, "  POPIA "));
    assert!(!add_standard_by_hand(&mut stds, "   "));
    assert_eq!(stds, choices(&[("ISA 315", true), ("POPIA", true)]));
    let mut scope = strings(&["Claims"]);
    assert!(add_scope_by_hand(&mut scope, "Fleet maintenance\n"));
    assert!(!add_scope_by_hand(&mut scope, ""));
    assert_eq!(scope, strings(&["Claims", "Fleet maintenance"]));
}

#[test]
fn setup_assistant_request() {
    let stds = choices(&[("ISA 315", true), ("IFRS 9", false), ("POPIA", true)]);
    let scope = strings(&["Claims", "Payroll"]);
    assert_eq!(
        setup_assistant_prompt(&stds, &scope, "  add King IV "),
        Some("You are an audit config assistant. Respond in JSON only.\nReturn: {\"summary\":\"...\",\"standards_add\":[],\"standards_remove\":[],\"scope_add\":[],\"scope_remove\":[]}\nSelected standards: ISA 315, POPIA\nScope: Claims; Payroll\n\nInstruction: add King IV".to_string())
    );
    assert_eq!(setup_assistant_prompt(&stds, &scope, " \t"), None);
}

#[test]
fn sop_document_and_setup_status() {
    let types = vec!["csv".to_string(), "txt".to_string(), "pdf".to_string()];
    assert_eq!(sop_file_index(&types), Some(1));
    assert_eq!(sop_file_index(&["xlsx".to_string()]), None);
    assert_eq!(setup_status(true, true, true), ("Reading SOP and extracting setup...", false));
    assert_eq!(setup_status(false, false, true), ("Upload a SOP document to get started", false));
    assert_eq!(setup_status(false, true, false), ("Configure standards and scope, then generate the audit plan", false));
    assert_eq!(setup_status(false, true, true), ("Audit plan ready", true));
    assert!(can_generate_plan(true, false));
    assert!(!can_generate_plan(true, true));
    assert!(!can_generate_plan(false, false));
}
