use vinrouge_web::assistant::{extract_dsl_code, parse_ops};
use vinrouge_web::charts::{build_dsl_chart_option, build_option, build_summary_option, ChartTab, DistPoint};
use vinrouge_web::distribution::{pick_sample_column, sample_distribution};
use vinrouge_web::findings::{
    failed_source_columns, finding_card, finding_counts, finding_lines, findings_status, failing_scripts, results_dot,
    results_status, statement_view, FindingLine,
};
use vinrouge_web::json::{JsonNumber, JsonValue};
use vinrouge_web::results::{parse_run_result, RunActual};
use vinrouge_web::summary::{
    build_web_summary, AnalysisResult, ColumnSummary, RelationshipSummary, TableSummary, WorkflowSummary,
};

fn text_of(s: &str) -> JsonValue {
    JsonValue::Str(s.to_string())
}

fn object_of(entries: Vec<(&str, JsonValue)>) -> JsonValue {
    JsonValue::Object(entries.into_iter().map(|(k, v)| (k.to_string(), v)).collect())
}

fn uint(n: u64) -> JsonValue {
    JsonValue::Number(JsonNumber::PosInt(n))
}

fn actual_text(a: &RunActual) -> String {
    match a {
        RunActual::Text(s) => s.clone(),
        RunActual::Value(_) => panic!("expected text"),
    }
}

#[test]
fn run_result_counts_failed_assertions() {
    let rs = vec![
        object_of(vec![("kind", text_of("assert")), ("passed", JsonValue::Bool(false))]),
        object_of(vec![("kind", text_of("assert")), ("passed", JsonValue::Bool(true))]),
        object_of(vec![("kind", text_of("error")), ("error", text_of("x"))]),
        object_of(vec![("kind", text_of("assert")), ("passed", JsonValue::Bool(false))]),
    ];
    let o = parse_run_result(rs);
    assert_eq!(o.expr_type, "EXCEPTIONS");
    assert_eq!(o.expected, "0");
    assert_eq!(actual_text(&o.actual), "2");
    assert!(!o.passed);
}

#[test]
fn run_result_error_sample_value_and_run() {
    let e = parse_run_result(vec![object_of(vec![("kind", text_of("error")), ("error", text_of("boom"))])]);
    assert_eq!((e.expr_type.as_str(), e.expected.as_str()), ("ERROR", "\u{2014}"));
    assert_eq!(actual_text(&e.actual), "boom");
    assert!(!e.passed);
    let e2 = parse_run_result(vec![object_of(vec![("kind", text_of("error"))])]);
    assert_eq!(actual_text(&e2.actual), "unknown error");

    let s = parse_run_result(vec![object_of(vec![
        ("kind", text_of("sample")),
        ("population_size", uint(100)),
        ("selected_count", uint(5)),
    ])]);
    assert_eq!((s.expr_type.as_str(), s.expected.as_str()), ("SAMPLE", "100"));
    assert_eq!(actual_text(&s.actual), "5");
    assert!(s.passed);

    let v = parse_run_result(vec![object_of(vec![("kind", text_of("value")), ("value", uint(3))])]);
    assert_eq!((v.expr_type.as_str(), v.expected.as_str()), ("MATH", "\u{2014}"));
    assert!(matches!(v.actual, RunActual::Value(JsonValue::Number(JsonNumber::PosInt(3)))));

    let r = parse_run_result(vec![]);
    assert_eq!((r.expr_type.as_str(), r.expected.as_str()), ("RUN", "\u{2014}"));
    assert_eq!(actual_text(&r.actual), "0 result(s)");
    assert!(r.passed);
}

#[test]
fn distribution_most_frequent_first() {
    let rows = vec![
        object_of(vec![("s", text_of("b"))]),
        object_of(vec![("s", text_of("a"))]),
        object_of(vec![("s", text_of("b"))]),
        object_of(vec![("s", text_of(""))]),
        object_of(vec![("x", uint(1))]),
    ];
    let pts = sample_distribution(&rows, "s");
    let got: Vec<(String, usize)> = pts.iter().map(|p| (p.value.clone(), p.count)).collect();
    assert_eq!(got, vec![("b".to_string(), 2), ("a".to_string(), 1)]);
    let tie = vec![object_of(vec![("s", text_of("z"))]), object_of(vec![("s", text_of("y"))])];
    let got2: Vec<String> = sample_distribution(&tie, "s").iter().map(|p| p.value.clone()).collect();
    assert_eq!(got2, vec!["y".to_string(), "z".to_string()]);
}

#[test]
fn sample_column_prefers_categorical() {
    let rows = vec![
        object_of(vec![("id", text_of("1")), ("status", text_of("A")), ("kind", text_of("x"))]),
        object_of(vec![("id", text_of("2")), ("status", text_of("B")), ("kind", text_of("y"))]),
        object_of(vec![("id", text_of("3")), ("status", text_of("C")), ("kind", text_of("x"))]),
    ];
    assert_eq!(pick_sample_column(&rows), Some("kind".to_string()));
    let skipped = vec![object_of(vec![("Amount", text_of("1"))]), object_of(vec![("Amount", text_of("2"))])];
    assert_eq!(pick_sample_column(&skipped), Some("Amount".to_string()));
    assert_eq!(pick_sample_column(&[]), None);
    assert_eq!(pick_sample_column(&[JsonValue::Null]), None);
}

#[test]
fn bar_and_pie_options() {
    let data = vec![DistPoint { value: "a\"b".to_string(), count: 2 }, DistPoint { value: "c".to_string(), count: 1 }];
    assert_eq!(
        build_option(ChartTab::Bar, &data),
        r##"{"backgroundColor":"transparent","grid":{"left":60,"right":20,"top":20,"bottom":60},"tooltip":{"trigger":"axis"},"xAxis":{"type":"category","data":["a\"b","c"],"axisLabel":{"rotate":30,"fontSize":10,"color":"#c9a8ae"}},"yAxis":{"type":"value","axisLabel":{"color":"#c9a8ae"}},"series":[{"type":"bar","data":[2,1],"itemStyle":{"color":"#8b1a2a"}}]}"##
    );
    assert_eq!(
        build_option(ChartTab::Pie, &data),
        r##"{"backgroundColor":"transparent","tooltip":{"trigger":"item"},"legend":{"orient":"vertical","left":"left","textStyle":{"color":"#c9a8ae","fontSize":11}},"series":[{"type":"pie","radius":"60%","data":[{"name":"a\"b","value":2},{"name":"c","value":1}],"label":{"color":"#f0e6e8","fontSize":11}}]}"##
    );
    assert_eq!(build_option(ChartTab::Table, &data), "");
    assert_eq!(ChartTab::Bar.label(), "Bar");
    assert_eq!(ChartTab::Pie.label(), "Pie");
    assert_eq!(ChartTab::Table.label(), "Table");
}

#[test]
fn summary_option_stacks_results() {
    assert_eq!(build_summary_option(&[]), "");
    assert_eq!(
        build_summary_option(&[("C-1", 3, 1, 0), ("C-2", 0, 0, 2)]),
        r##"{"backgroundColor":"transparent","grid":{"left":55,"right":12,"top":10,"bottom":48},"tooltip":{"trigger":"axis","axisPointer":{"type":"shadow"}},"legend":{"data":["Passed","Failed","Errors"],"bottom":4,"textStyle":{"color":"#c9a8ae","fontSize":10}},"xAxis":{"type":"category","data":["C-1","C-2"],"axisLabel":{"color":"#c9a8ae","fontSize":10,"rotate":30}},"yAxis":{"type":"value","minInterval":1,"axisLabel":{"color":"#c9a8ae","fontSize":10}},"series":[{"name":"Passed","type":"bar","stack":"s","data":[3,0],"itemStyle":{"color":"#38a749"}},{"name":"Failed","type":"bar","stack":"s","data":[1,0],"itemStyle":{"color":"#e05c5c"}},{"name":"Errors","type":"bar","stack":"s","data":[0,2],"itemStyle":{"color":"#f0a500"}}]}"##
    );
}

#[test]
fn dsl_chart_option_by_type() {
    let labels = vec!["x".to_string(), "y".to_string()];
    let values = vec!["1".to_string(), "2.5".to_string()];
    assert_eq!(
        build_dsl_chart_option("pie", &labels, &values),
        r##"{"backgroundColor":"transparent","tooltip":{"trigger":"item"},"legend":{"orient":"vertical","left":"left","textStyle":{"color":"#c9a8ae","fontSize":11}},"series":[{"type":"pie","radius":"60%","data":[{"name":"x","value":1},{"name":"y","value":2.5}],"label":{"color":"#f0e6e8","fontSize":11}}]}"##
    );
    assert_eq!(
        build_dsl_chart_option("line", &labels, &values),
        r##"{"backgroundColor":"transparent","grid":{"left":60,"right":20,"top":20,"bottom":60},"tooltip":{"trigger":"axis"},"xAxis":{"type":"category","data":["x","y"],"axisLabel":{"rotate":30,"fontSize":10,"color":"#c9a8ae"}},"yAxis":{"type":"value","axisLabel":{"color":"#c9a8ae"}},"series":[{"type":"line","data":[1,2.5],"smooth":true,"itemStyle":{"color":"#8b1a2a"}}]}"##
    );
    assert_eq!(
        build_dsl_chart_option("scatter", &labels, &values),
        r##"{"backgroundColor":"transparent","grid":{"left":60,"right":20,"top":20,"bottom":60},"tooltip":{"trigger":"item"},"xAxis":{"type":"category","data":["x","y"],"axisLabel":{"rotate":30,"fontSize":10,"color":"#c9a8ae"}},"yAxis":{"type":"value","axisLabel":{"color":"#c9a8ae"}},"series":[{"type":"scatter","data":[1,2.5],"itemStyle":{"color":"#8b1a2a"}}]}"##
    );
    assert_eq!(
        build_dsl_chart_option("anything", &labels, &values),
        r##"{"backgroundColor":"transparent","grid":{"left":60,"right":20,"top":20,"bottom":60},"tooltip":{"trigger":"axis"},"xAxis":{"type":"category","data":["x","y"],"axisLabel":{"rotate":30,"fontSize":10,"color":"#c9a8ae"}},"yAxis":{"type":"value","axisLabel":{"color":"#c9a8ae"}},"series":[{"type":"bar","data":[1,2.5],"itemStyle":{"color":"#8b1a2a"}}]}"##
    );
}

#[test]
fn dsl_code_from_fence_or_keyword_lines() {
    assert_eq!(
        extract_dsl_code("Here:\n```dsl\nASSERT a.b > 0\n```\nThanks"),
        Some("ASSERT a.b > 0".to_string())
    );
    assert_eq!(
        extract_dsl_code("Try this:\nSAMPLE RANDOM FROM t.a SIZE 5\n  continued\n\nbye"),
        Some("SAMPLE RANDOM FROM t.a SIZE 5\n  continued".to_string())
    );
    assert_eq!(extract_dsl_code("hello there"), None);
}

#[test]
fn ops_deduplicated_by_class() {
    assert_eq!(
        parse_ops("ASSERT SUM(x) > 0 AND COUNT"),
        vec![("SUM", "total"), ("COUNT", "count"), ("ASSERT", "expect")]
    );
    assert_eq!(parse_ops("TOTAL and SUM"), vec![("TOTAL", "total")]);
    assert_eq!(parse_ops("nothing"), Vec::<(&str, &str)>::new());
}

#[test]
fn web_summary_lists_tables_links_and_workflows() {
    let r = AnalysisResult {
        tables: vec![TableSummary {
            name: "claims".to_string(),
            columns: vec![ColumnSummary { name: "id".to_string(), data_type: "Integer".to_string() }],
            row_count: Some(10),
        }],
        relationships: vec![RelationshipSummary {
            from_table: "claims".to_string(),
            from_column: "policy_id".to_string(),
            to_table: "policies".to_string(),
            to_column: "id".to_string(),
        }],
        workflows: vec![WorkflowSummary { workflow_type: "Approval".to_string(), description: "two steps".to_string() }],
    };
    assert_eq!(
        build_web_summary(&r),
        "Tables (1):\n  - claims (1 columns, ~10 rows)\n      id: Integer\n\nRelationships (1):\n  - claims.policy_id -> policies.id\n\nWorkflows (1):\n  - Approval: two steps\n"
    );
    let empty = AnalysisResult { tables: vec![], relationships: vec![], workflows: vec![] };
    assert_eq!(build_web_summary(&empty), "Tables (0):\n");
}

#[test]
fn statement_rows_by_kind() {
    let a = statement_view(&object_of(vec![
        ("kind", text_of("assert")),
        ("passed", JsonValue::Bool(false)),
        ("index", uint(4)),
        ("lhs_value", text_of("3")),
        ("rhs_value", text_of("0")),
    ]));
    assert_eq!((a.class, a.icon), ("s5-stmt-row s5-stmt-fail", "\u{2717}"));
    assert_eq!((a.label.as_str(), a.values.as_str()), ("Assert #4", "3 = 0"));
    let p = statement_view(&object_of(vec![("kind", text_of("assert")), ("passed", JsonValue::Bool(true)), ("label", text_of("L")), ("op", text_of(">"))]));
    assert_eq!((p.class, p.icon, p.label.as_str(), p.values.as_str()), ("s5-stmt-row s5-stmt-pass", "\u{2713}", "L", "? > ?"));
    let s = statement_view(&object_of(vec![("kind", text_of("sample")), ("selected_count", uint(5)), ("population_size", uint(80))]));
    assert_eq!((s.class, s.icon, s.label.as_str(), s.values.as_str()), ("s5-stmt-row s5-stmt-sample", "\u{25ce}", "Sample", "5 selected from 80 items"));
    let v = statement_view(&object_of(vec![("kind", text_of("value")), ("value", text_of("12.5"))]));
    assert_eq!((v.class, v.icon, v.label.as_str(), v.values.as_str()), ("s5-stmt-row", "=", "Value", "12.5"));
    let e = statement_view(&JsonValue::Null);
    assert_eq!((e.class, e.icon, e.label.as_str(), e.values.as_str()), ("s5-stmt-row s5-stmt-error", "\u{26a0}", "Error", "Unknown error"));
}

#[test]
fn finding_columns_and_lines() {
    let rs = vec![
        object_of(vec![("kind", text_of("assert")), ("passed", JsonValue::Bool(false)), ("source_col", text_of("t.a")), ("label", text_of("A"))]),
        object_of(vec![("kind", text_of("assert")), ("passed", JsonValue::Bool(true)), ("source_col", text_of("t.b"))]),
        object_of(vec![("kind", text_of("assert")), ("passed", JsonValue::Bool(false)), ("source_col", text_of("t.a"))]),
        object_of(vec![("kind", text_of("assert")), ("source_col", text_of("t.c"))]),
        object_of(vec![("kind", text_of("error")), ("error", text_of("boom"))]),
    ];
    assert_eq!(failed_source_columns(&rs), vec!["t.a".to_string()]);
    let lines = finding_lines(&rs);
    assert_eq!(lines.len(), 3);
    assert!(matches!(&lines[0], FindingLine::Assert { label, actual } if label == "A" && actual == "actual ? = ?"));
    assert!(matches!(&lines[1], FindingLine::Assert { label, .. } if label == "assert"));
    assert!(matches!(&lines[2], FindingLine::Error(e) if e == "boom"));
}

#[test]
fn findings_counters_and_texts() {
    let rs = [(3, 0, 0), (1, 2, 0), (0, 0, 1), (5, 0, 0)];
    assert_eq!(finding_counts(&rs), (2, 2));
    assert_eq!(findings_status(2, 2), "2 finding(s) \u{b7} 2 control(s) passed");
    assert_eq!(findings_status(0, 0), "No results available");
    assert_eq!(results_status(4, 9, 2), "4 test scripts \u{b7} 9 passed \u{b7} 2 failed");
    assert_eq!(results_status(0, 9, 2), "No results available");
    assert_eq!(results_dot(9, 0, 0), "s4-dot s4-dot--ready");
    assert_eq!(results_dot(9, 0, 1), "s4-dot s4-dot--idle");
    assert_eq!(results_dot(0, 0, 0), "s4-dot s4-dot--idle");
}

#[test]
fn finding_cards_and_pairs() {
    let c = finding_card("Claims", "C-2", (4, 2, 1));
    assert_eq!(c.0, "#e05c5c");
    assert_eq!(c.1, "FINDING \u{2014} Claims");
    assert_eq!(c.2, "Control C-2 \u{b7} 2 failed \u{b7} 1 errors \u{b7} 4 passed");
    assert_eq!(c.3, "3 issue(s)");
    assert_eq!(finding_card("X", "C-1", (0, 0, 2)).0, "var(--w-text-3)");
    let ids = vec!["s1".to_string(), "s2".to_string(), "s3".to_string()];
    let results = vec![
        ("s2".to_string(), 1, 1, 0),
        ("s1".to_string(), 3, 0, 0),
        ("s2".to_string(), 5, 0, 0),
        ("s3".to_string(), 0, 0, 2),
    ];
    assert_eq!(failing_scripts(&ids, &results), vec![(1, 0), (2, 3)]);
}

#[test]
fn other_chart_types_draw_bars() {
    let labels = vec!["a".to_string(), "b".to_string()];
    let values = vec!["1".to_string(), "2".to_string()];
    let area = build_dsl_chart_option("area", &labels, &values);
    assert_eq!(area, build_dsl_chart_option("bar", &labels, &values));
    assert_eq!(build_dsl_chart_option("Pie", &labels, &values), area);
    assert!(area.contains("\"type\":\"bar\""));
}
