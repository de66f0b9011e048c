use vinrouge_web::model::{AuditProcessWithControls, Control, PbcGroup, PbcItem, SessionSchema};
use vinrouge_web::plan_prompt::{build_brief_plan_section, build_plan_section, plan_scores_in_range, try_build_plan_section};
use vinrouge_web::prompts::{
    build_example_section, build_regen_prompt, build_schema_section, build_table_names_section, format_plan_chunk,
};

fn schema_of(name: &str, cols: &[&str], rows: i64, kind: &str) -> SessionSchema {
    SessionSchema {
        table_name: name.to_string(),
        columns: cols.iter().map(|c| c.to_string()).collect(),
        row_count: rows,
        source_type: kind.to_string(),
    }
}

fn control_of(id: &str, cref: &str, obj: &str, desc: &str, test: &str, risk: &str) -> Control {
    Control {
        id: id.to_string(),
        control_ref: cref.to_string(),
        control_objective: obj.to_string(),
        control_description: desc.to_string(),
        test_procedure: test.to_string(),
        risk_level: risk.to_string(),
    }
}

fn item_of(name: &str, table: Option<&str>, fields: &[&str]) -> PbcItem {
    PbcItem {
        id: format!("i-{name}"),
        name: name.to_string(),
        control_ref: "C-1".to_string(),
        table_name: table.map(|t| t.to_string()),
        fields: fields.iter().map(|f| f.to_string()).collect(),
        purpose: String::new(),
        item_type: "SQL".to_string(),
        scope_format: String::new(),
        approved: false,
    }
}

#[test]
fn schema_section_lists_each_table() {
    let s = vec![schema_of("claims", &["id", "amount"], 12, "csv"), schema_of("pol", &[], -1, "csv")];
    assert_eq!(
        build_schema_section(&s),
        "Table: claims (12 rows)\n  Columns: id, amount\n\nTable: pol (-1 rows)\n  Columns: \n\n"
    );
    assert_eq!(build_schema_section(&[]), "");
}

#[test]
fn table_names_section_is_a_bullet_list() {
    let s = vec![schema_of("a", &["x"], 1, "csv"), schema_of("b", &["y"], 2, "csv")];
    assert_eq!(
        build_table_names_section(&s),
        "VALID TABLE NAMES (copy these EXACTLY \u{2014} no other names are permitted):\n  - a\n  - b\n\n"
    );
}

#[test]
fn example_section_picks_hinted_columns() {
    let s = vec![schema_of("gl", &["id", "Status", "Net_Amount"], 5, "csv")];
    let e = build_example_section(&s);
    assert!(e.starts_with("WORKED EXAMPLE using your actual table 'gl':\n"));
    assert!(e.contains("ASSERT COUNT(gl.Status) > 0"));
    assert!(e.contains("ASSERT gl.Status IS NOT NULL"));
    assert!(e.contains("ASSERT SUM(gl.Net_Amount) > 0"));
    assert!(e.contains("SAMPLE MUS FROM gl.Net_Amount SIZE 30"));
    assert_eq!(build_example_section(&[]), "");
}

#[test]
fn example_section_falls_back_to_positions() {
    let s = vec![schema_of("t", &["alpha", "beta"], 5, "csv")];
    let e = build_example_section(&s);
    assert!(e.contains("ASSERT COUNT(t.alpha) > 0"));
    assert!(e.contains("ASSERT SUM(t.beta) > 0"));
    let none = vec![schema_of("t", &[], 0, "csv")];
    assert!(build_example_section(&none).contains("ASSERT SUM(t.id) > 0"));
}

#[test]
fn plan_chunk_text_has_every_control() {
    let p = vec![AuditProcessWithControls {
        process_name: "Claims".to_string(),
        description: "Pay claims".to_string(),
        controls: vec![control_of("1", "C-1", "Approve", "Manager signs", "Inspect", "High")],
    }];
    assert_eq!(
        format_plan_chunk(&p),
        "Process: Claims\nDescription: Pay claims\n  Control C-1: Approve\n    How it operates: Manager signs\n    Test procedure: Inspect\n    Risk: High\n\n"
    );
}

#[test]
fn regen_prompt_with_and_without_scope() {
    assert_eq!(build_regen_prompt("BASE", &[], "sop"), "BASE\n\nsop");
    let scope = vec!["Claims".to_string(), "Payroll".to_string()];
    assert_eq!(
        build_regen_prompt("BASE", &scope, "sop"),
        "BASE\n\nIMPORTANT: You MUST generate exactly one process entry for EACH of the following processes \u{2014} do not skip, merge, or add extras:\n- Claims\n- Payroll\n\nSOP TEXT:\nsop"
    );
}

#[test]
fn plan_section_names_required_tables() {
    let plan = vec![AuditProcessWithControls {
        process_name: "P".to_string(),
        description: String::new(),
        controls: vec![control_of("c1", "C-1", "Obj", "Desc", "Test", "Low")],
    }];
    let groups = vec![PbcGroup {
        control_id: "c1".to_string(),
        control_ref: "C-1".to_string(),
        title: String::new(),
        process_name: String::new(),
        items: vec![item_of("Ledger", Some("GL"), &["amt", "date"])],
    }];
    let schemas = vec![schema_of("gl", &["amt", "date"], 3, "csv")];
    let s = build_plan_section(&plan, &groups, &schemas);
    assert!(s.starts_with("Process: P\n  Control C-1: Obj\n    How it operates: Desc\n    Test: Test\n    Risk: Low\n"));
    assert!(s.contains("    *** REQUIRED TABLES FOR THIS CONTROL: GL\n"));
    assert!(s.contains("    Exact columns in gl: amt, date\n"));
    assert!(s.contains("    Data: Ledger (table: GL, fields: amt, date)\n"));
    assert!(s.ends_with("\n\n"));
}

#[test]
fn plan_section_best_keyword_match() {
    let plan = vec![AuditProcessWithControls {
        process_name: "P".to_string(),
        description: String::new(),
        controls: vec![control_of("c1", "C-1", "Review payroll", "", "", "Low")],
    }];
    let schemas = vec![schema_of("sales", &["x"], 3, "csv"), schema_of("payroll_2024", &["gross"], 3, "csv")];
    let s = build_plan_section(&plan, &[], &schemas);
    assert!(s.contains("    BEST MATCH TABLE: payroll_2024 \u{2014} use this as the primary table.\n    Columns: gross\n"));
}

#[test]
fn brief_plan_section_lists_data_requests() {
    let plan = vec![AuditProcessWithControls {
        process_name: "P".to_string(),
        description: String::new(),
        controls: vec![control_of("c1", "C-1", "Obj", "Desc", "Test", "Low")],
    }];
    let groups = vec![PbcGroup {
        control_id: "c1".to_string(),
        control_ref: "C-1".to_string(),
        title: String::new(),
        process_name: String::new(),
        items: vec![item_of("Ledger", None, &["amt"])],
    }];
    assert_eq!(
        build_brief_plan_section(&plan, &groups),
        "Process: P\n  Control C-1: Obj\n    Test: Test\n    Risk: Low\n    Data: Ledger (fields: amt)\n\n"
    );
    assert_eq!(
        build_brief_plan_section(&plan, &[]),
        "Process: P\n  Control C-1: Obj\n    Test: Test\n    Risk: Low\n\n"
    );
}

fn payroll_plan() -> Vec<AuditProcessWithControls> {
    vec![AuditProcessWithControls {
        process_name: "P".to_string(),
        description: String::new(),
        controls: vec![control_of("c1", "C-1", "Review payroll", "", "", "Low")],
    }]
}

fn ledger_group(control_id: &str, table: Option<&str>) -> PbcGroup {
    PbcGroup {
        control_id: control_id.to_string(),
        control_ref: "C-1".to_string(),
        title: String::new(),
        process_name: String::new(),
        items: vec![item_of("Ledger", table, &["amt"])],
    }
}

#[test]
fn plan_section_ignores_groups_of_other_controls() {
    let plan = payroll_plan();
    let schemas = vec![schema_of("gl", &["amt"], 3, "csv"), schema_of("payroll", &["gross"], 3, "csv")];
    let base = vec![ledger_group("c1", None)];
    let more = vec![ledger_group("c1", None), ledger_group("c9", Some("gl"))];
    assert_eq!(build_plan_section(&plan, &more, &schemas), build_plan_section(&plan, &base, &schemas));
    assert!(build_plan_section(&plan, &base, &schemas).contains("BEST MATCH TABLE: payroll"));
}

fn process_of(name: &str, id: &str, cref: &str, obj: &str) -> AuditProcessWithControls {
    AuditProcessWithControls {
        process_name: name.to_string(),
        description: String::new(),
        controls: vec![control_of(id, cref, obj, "", "", "Low")],
    }
}

#[test]
fn plan_section_splits_and_checks_scores() {
    let schemas = vec![schema_of("ledger", &["amt"], 3, "csv")];
    let both = build_plan_section(
        &[process_of("A", "c1", "C-1", "Review payroll"), process_of("B", "c2", "C-2", "Match ledger")],
        &[],
        &schemas,
    );
    let parts = build_plan_section(&[process_of("A", "c1", "C-1", "Review payroll")], &[], &schemas)
        + &build_plan_section(&[process_of("B", "c2", "C-2", "Match ledger")], &[], &schemas);
    assert_eq!(both, parts);
    assert_eq!(build_plan_section(&[], &[], &schemas), "");
    let plan = vec![process_of("A", "c1", "C-1", "Review payroll"), process_of("B", "c2", "C-2", "Match ledger")];
    assert!(plan_scores_in_range(&plan, &[], &schemas));
    assert_eq!(try_build_plan_section(&plan, &[], &schemas), Some(both));
}
