use vinrouge_web::review::put_state;
use vinrouge_web::review::{load_step, LoadAction};
use vinrouge_web::grid::{set_filter, toggled_values};
use vinrouge_web::grid::distinct_values;
use vinrouge_web::generation::{ScriptState, ScriptStatus};
use vinrouge_web::grid::{
    build_data_window_html, cell_class, col_letter, data_window_page, filter_rows, grid_key, letter_class, next_sort,
};
use vinrouge_web::model::SessionSchema;
use vinrouge_web::review::{
    assistant_context, can_run, decision_counts, pending_count, preview_columns, row_range_label, scripts_to_run,
    status_line, tab_order, used_columns, Phase,
};
use vinrouge_web::status::{
    count_badge, initial_model_state, nav_class, next_model_state, result_summary, result_totals, result_verdict,
    risk_badge_class, toggle_expanded, update_progress, ModelEvent, ModelState, UpdateState,
};

fn owned(v: &[&str]) -> Vec<String> {
    v.iter().map(|s| s.to_string()).collect()
}

fn state(status: ScriptStatus) -> ScriptState {
    ScriptState { status, text: String::new() }
}

fn sheet(name: &str, kind: &str) -> SessionSchema {
    SessionSchema { table_name: name.to_string(), columns: vec![], row_count: 0, source_type: kind.to_string() }
}

#[test]
fn column_letters() {
    assert_eq!(col_letter(0), "A");
    assert_eq!(col_letter(25), "Z");
    assert_eq!(col_letter(26), "AA");
    assert_eq!(col_letter(27), "AB");
    assert_eq!(col_letter(52), "BA");
    assert_eq!(col_letter(701), "ZZ");
}

#[test]
fn sort_header_cycles_through_three_states() {
    let s1 = next_sort(None, 2);
    assert_eq!(s1, Some((2, true)));
    let s2 = next_sort(s1, 2);
    assert_eq!(s2, Some((2, false)));
    assert_eq!(next_sort(s2, 2), None);
    assert_eq!(next_sort(Some((1, false)), 2), Some((2, true)));
}

#[test]
fn filters_keep_matching_rows() {
    let rows = vec![owned(&["a", "x"]), owned(&["b", "y"]), owned(&["a", "z"]), owned(&["c"])];
    let filters = vec![(0usize, owned(&["a", "c"])), (1usize, owned(&["x", "y"]))];
    assert_eq!(filter_rows(&rows, &filters), vec![0, 3]);
    assert_eq!(filter_rows(&rows, &vec![]), vec![0, 1, 2, 3]);
}

#[test]
fn arrow_keys_move_within_visible_rows() {
    let visible = vec![0usize, 3, 5];
    assert_eq!(grid_key("ArrowDown", &visible, 3, 1, 4), Some((5, 1)));
    assert_eq!(grid_key("ArrowDown", &visible, 5, 1, 4), Some((5, 1)));
    assert_eq!(grid_key("ArrowUp", &visible, 3, 1, 4), Some((0, 1)));
    assert_eq!(grid_key("ArrowUp", &visible, 0, 1, 4), Some((0, 1)));
    assert_eq!(grid_key("ArrowUp", &visible, 4, 1, 4), None);
    assert_eq!(grid_key("ArrowLeft", &visible, 3, 0, 4), Some((3, 0)));
    assert_eq!(grid_key("ArrowRight", &visible, 3, 3, 4), Some((3, 3)));
    assert_eq!(grid_key("ArrowRight", &visible, 3, 1, 4), Some((3, 2)));
    assert_eq!(grid_key("Enter", &visible, 3, 1, 4), None);
}

#[test]
fn header_and_cell_classes() {
    assert_eq!(letter_class(true, true), "vr-th-letter vr-th-letter--open");
    assert_eq!(letter_class(true, false), "vr-th-letter vr-th-letter--active");
    assert_eq!(letter_class(false, false), "vr-th-letter");
    assert_eq!(cell_class(Some((1, 2)), 1, 2), "vr-td selected");
    assert_eq!(cell_class(Some((1, 2)), 1, 0), "vr-td selected-row");
    assert_eq!(cell_class(Some((1, 2)), 0, 2), "vr-td selected-col");
    assert_eq!(cell_class(None, 1, 2), "vr-td");
}

#[test]
fn data_window_has_tabs_and_escaped_json() {
    let tables = vec![
        ("a<b>".to_string(), owned(&["c"]), vec![owned(&["1"]), owned(&["2"])]),
        ("second".to_string(), owned(&[]), vec![]),
    ];
    let page = data_window_page(&tables, "[\"</script>\"]");
    assert!(page.starts_with("<!DOCTYPE html>\n<html><head>"));
    assert!(page.contains("var TABLES=[\"<\\/script>\"];\nvar T=0"));
    assert!(page.contains(
        "<button class=\"tab active\" data-ti=\"0\">a&lt;b&gt;<span class=\"tab-count\">2</span></button><button class=\"tab\" data-ti=\"1\">second<span class=\"tab-count\">0</span></button><span id=\"rc\" class=\"pill\">2 rows</span></div>"
    ));
    assert!(page.ends_with("<div id=\"g\" class=\"table-wrap\"></div></body></html>"));
}

#[test]
fn data_window_serialises_tables() {
    let tables = vec![("t</script>".to_string(), owned(&["c"]), vec![owned(&["1"])])];
    let page = build_data_window_html(&tables);
    assert!(page.contains("var TABLES=[{"));
    assert!(page.contains("\"name\":\"t<\\/script>\""));
    assert!(page.contains("\"columns\":[\"c\"]"));
    assert!(page.contains("\"rows\":[[\"1\"]]"));
    assert!(page.contains("}];\nvar T=0"));
    assert!(page.contains("data-ti=\"0\">t&lt;/script&gt;<span"));
}

#[test]
fn review_counters() {
    let states = vec![
        state(ScriptStatus::Approved),
        state(ScriptStatus::Rejected),
        state(ScriptStatus::Approved),
        state(ScriptStatus::Generated),
        state(ScriptStatus::ValidationError("e".to_string())),
    ];
    assert_eq!(decision_counts(&states), (2, 1));
    assert_eq!(pending_count(5, &states), 2);
    assert_eq!(pending_count(1, &states), 0);
    assert!(can_run(&Phase::Review, 5, &states));
    assert!(!can_run(&Phase::Loading, 5, &states));
    assert!(!can_run(&Phase::Review, 0, &states));
    assert!(!can_run(&Phase::Review, 1, &[state(ScriptStatus::Rejected)]));
}

#[test]
fn run_takes_approved_scripts_else_all_not_rejected() {
    let ids = owned(&["s1", "s2", "s3", "s4"]);
    let some_approved = vec![
        ("s1".to_string(), state(ScriptStatus::Approved)),
        ("s2".to_string(), state(ScriptStatus::Generated)),
        ("s3".to_string(), state(ScriptStatus::Rejected)),
    ];
    assert_eq!(scripts_to_run(&ids, &some_approved), vec![0, 3]);
    let none_approved = vec![
        ("s2".to_string(), state(ScriptStatus::Edited)),
        ("s3".to_string(), state(ScriptStatus::Rejected)),
    ];
    assert_eq!(scripts_to_run(&ids, &none_approved), vec![0, 1, 3]);
}

#[test]
fn status_bar_texts() {
    assert_eq!(status_line(&Phase::Loading, "", 0, 0), "Loading data\u{2026}");
    assert_eq!(status_line(&Phase::Generating, "Working", 0, 0), "Working");
    assert_eq!(status_line(&Phase::Running { done: 2, total: 5 }, "", 0, 0), "Running scripts: 2/5\u{2026}");
    assert_eq!(status_line(&Phase::Review, "", 0, 4), "0 of 4 algorithms approved \u{2014} approve or run directly");
    assert_eq!(status_line(&Phase::Review, "", 3, 4), "3 of 4 approved");
    assert_eq!(status_line(&Phase::Error("bad".to_string()), "", 0, 0), "Error: bad");
    assert_eq!(status_line(&Phase::BuildingMaster, "x", 1, 1), "");
}

#[test]
fn preview_row_range() {
    assert_eq!(row_range_label(120, 50, 50), "51-100 of 120 rows");
    assert_eq!(row_range_label(0, 0, 7), "7 rows");
}

#[test]
fn empty_columns_are_hidden() {
    let rows = vec![owned(&["", " x", ""]), owned(&["  ", "", ""]), owned(&["", ""])];
    assert_eq!(used_columns(4, &rows), vec![1]);
    let rows2 = vec![owned(&["a", "", "b"])];
    assert_eq!(used_columns(3, &rows2), vec![0, 2]);
}

#[test]
fn assistant_context_text() {
    let s = vec![SessionSchema {
        table_name: "gl".to_string(),
        columns: owned(&["a", "b"]),
        row_count: 3,
        source_type: "csv".to_string(),
    }];
    let c = assistant_context(&s, "ASSERT gl.a > 0");
    assert!(c.starts_with(
        "You are a VinRouge audit DSL assistant. Help the auditor write and improve DSL test scripts.\n\nAvailable data:\nTable gl (3 rows): a, b\n\nCurrent script:\nASSERT gl.a > 0\n\nDSL reference:\n"
    ));
    assert!(c.ends_with("Wrap DSL code in ``` fences."));
}

#[test]
fn tabs_put_master_last_and_sort_by_name() {
    let s = vec![sheet("master", "master"), sheet("zeta", "csv"), sheet("alpha", "excel"), sheet("alpha", "csv")];
    assert_eq!(tab_order(&s), vec![2, 3, 1, 0]);
    assert_eq!(tab_order(&[]), Vec::<usize>::new());
}

#[test]
fn preview_columns_sorted_by_shown_name() {
    let keys = owned(&["f_b", "f_a", "zz"]);
    let map = vec![("Beta".to_string(), "f_b".to_string()), ("Alpha".to_string(), "f_a".to_string())];
    let cols = preview_columns(&keys, &map);
    assert_eq!(
        cols,
        vec![
            ("f_a".to_string(), "Alpha".to_string()),
            ("f_b".to_string(), "Beta".to_string()),
            ("zz".to_string(), "zz".to_string()),
        ]
    );
}

#[test]
fn model_state_machine() {
    assert!(matches!(initial_model_state(true), ModelState::Checking));
    assert!(matches!(initial_model_state(false), ModelState::Ready));
    assert!(matches!(next_model_state(ModelEvent::Checked(true)), ModelState::Ready));
    match next_model_state(ModelEvent::Checked(false)) {
        ModelState::Pulling(p, t) => {
            assert_eq!(p, 0);
            assert_eq!(t, "Starting\u{2026}");
        },
        other => panic!("unexpected {other:?}"),
    }
    match next_model_state(ModelEvent::Progress { percent: 40, status: "pulling".to_string(), done: false }) {
        ModelState::Pulling(p, t) => assert_eq!((p, t.as_str()), (40, "pulling")),
        other => panic!("unexpected {other:?}"),
    }
    assert!(matches!(
        next_model_state(ModelEvent::Progress { percent: 100, status: String::new(), done: true }),
        ModelState::Ready
    ));
    match next_model_state(ModelEvent::Failed("down".to_string())) {
        ModelState::Error(e) => assert_eq!(e, "down"),
        other => panic!("unexpected {other:?}"),
    }
}

#[test]
fn update_progress_states() {
    assert!(matches!(update_progress(Some(50), None, Some(true)), UpdateState::Installing));
    match update_progress(Some(300), None, None) {
        UpdateState::Downloading(p, t) => assert_eq!((p, t.as_str()), (44, "Downloading...")),
        other => panic!("unexpected {other:?}"),
    }
    match update_progress(None, Some("fetch".to_string()), Some(false)) {
        UpdateState::Downloading(p, t) => assert_eq!((p, t.as_str()), (0, "fetch")),
        other => panic!("unexpected {other:?}"),
    }
}

#[test]
fn navigation_and_risk_classes() {
    assert_eq!(nav_class("projects", "projects"), "nav-btn active");
    assert_eq!(nav_class("projects", "analysis"), "nav-btn");
    assert_eq!(risk_badge_class("High"), "risk-badge high");
    assert_eq!(risk_badge_class("Low"), "risk-badge low");
    assert_eq!(risk_badge_class("Medium"), "risk-badge medium");
    assert_eq!(risk_badge_class("high"), "risk-badge medium");
}

#[test]
fn result_verdicts_and_summary() {
    assert_eq!(result_verdict(None), ("s5-script-header", "s4-file-badge-pending", "No result"));
    assert_eq!(result_verdict(Some((0, 0, 2))), ("s5-script-header s5-header-error", "s4-file-badge-pending", "Error"));
    assert_eq!(result_verdict(Some((3, 1, 2))), ("s5-script-header s5-header-fail", "s4-file-badge-mapping", "Fail"));
    assert_eq!(result_verdict(Some((3, 0, 2))), ("s5-script-header s5-header-pass", "s4-file-badge-mapped", "Pass"));
    assert_eq!(result_summary(3, 1, 0), "\u{2713} 3 passed \u{b7} \u{2717} 1 failed \u{b7} \u{26a0} 0 errors");
}

#[test]
fn result_totals_and_overflow() {
    assert_eq!(result_totals(&[(3, 1, 0), (2, 2, 1)]), Some((8, 5, 3, 1)));
    assert_eq!(result_totals(&[]), Some((0, 0, 0, 0)));
    assert_eq!(result_totals(&[(i64::MAX, 0, 0), (1, 0, 0)]), None);
    assert_eq!(result_totals(&[(i64::MAX, 1, 0)]), None);
}

#[test]
fn expanded_card_toggles() {
    assert_eq!(toggle_expanded(None, "a".to_string()), Some("a".to_string()));
    assert_eq!(toggle_expanded(Some("a".to_string()), "a".to_string()), None);
    assert_eq!(toggle_expanded(Some("a".to_string()), "b".to_string()), Some("b".to_string()));
}

#[test]
fn approvals_pill() {
    let (style, text) = count_badge(3, 3);
    assert_eq!(text, "3/3");
    assert_eq!(
        style,
        "font-size:11px;padding:2px 8px;border-radius:999px;flex-shrink:0;border:0.5px solid #178856;background:rgba(23,136,86,0.12);color:#178856"
    );
    let (style2, text2) = count_badge(1, 3);
    assert_eq!(text2, "1/3");
    assert!(style2.ends_with("border:0.5px solid var(--w-border);background:var(--w-surface-1);color:var(--w-text-3)"));
    assert!(count_badge(0, 0).0.contains("var(--w-border)"));
}

#[test]
fn script_states_act_as_a_map() {
    let mut st: Vec<(String, ScriptState)> = Vec::new();
    put_state(&mut st, "a".to_string(), state(ScriptStatus::Generated));
    put_state(&mut st, "b".to_string(), state(ScriptStatus::Approved));
    put_state(&mut st, "a".to_string(), state(ScriptStatus::Rejected));
    assert_eq!(st.len(), 2);
    assert_eq!(st[0].0, "a");
    assert!(matches!(st[0].1.status, ScriptStatus::Rejected));
    assert!(matches!(st[1].1.status, ScriptStatus::Approved));
}

#[test]
fn opening_the_review() {
    let fail = load_step(&Err("offline".to_string()), false, &None);
    assert!(matches!(fail, LoadAction::Fail(ref m) if m == "Could not load data: offline"));
    let none = load_step(&Ok(vec![]), false, &None);
    assert!(matches!(none, LoadAction::Fail(ref m) if m == "No data imported yet. Go back to Step 4 and upload files."));
    let two = vec![sheet("a", "csv"), sheet("b", "excel")];
    assert!(matches!(load_step(&Ok(two), false, &None), LoadAction::ReviewRelationships));
    let with_master = || vec![sheet("a", "csv"), sheet("b", "excel"), sheet("m", "master")];
    let saved = Some(vec![("s1".to_string(), "x".to_string()), ("s2".to_string(), "y".to_string()), ("s1".to_string(), "z".to_string())]);
    match load_step(&Ok(with_master()), false, &saved) {
        LoadAction::UseSaved(states, first) => {
            assert_eq!(first, Some("s1".to_string()));
            assert_eq!(states.len(), 2);
            assert_eq!(states[0].1.text, "z");
            assert!(matches!(states[0].1.status, ScriptStatus::Generated));
        },
        _ => panic!("expected the saved scripts"),
    }
    assert!(matches!(load_step(&Ok(with_master()), true, &saved), LoadAction::Generate));
    assert!(matches!(load_step(&Ok(with_master()), false, &Some(vec![])), LoadAction::Generate));
    assert!(matches!(load_step(&Ok(vec![sheet("one", "csv")]), false, &None), LoadAction::Generate));
}

#[test]
fn filter_menu_edits() {
    let mut f: Vec<(usize, Vec<String>)> = Vec::new();
    set_filter(&mut f, 2, Some(vec![]));
    set_filter(&mut f, 0, Some(owned(&["x"])));
    set_filter(&mut f, 2, Some(owned(&["a"])));
    assert_eq!(f, vec![(2, owned(&["a"])), (0, owned(&["x"]))]);
    set_filter(&mut f, 2, None);
    assert_eq!(f, vec![(0, owned(&["x"]))]);
    let all = owned(&["a", "b", "c"]);
    assert_eq!(toggled_values(None, &all, &"b".to_string(), false), Some(owned(&["a", "c"])));
    let cur = owned(&["a"]);
    assert_eq!(toggled_values(Some(&cur), &all, &"b".to_string(), true), Some(owned(&["a", "b"])));
    let two = owned(&["a", "c"]);
    assert_eq!(toggled_values(Some(&two), &all, &"b".to_string(), true), None);
}

#[test]
fn filter_menu_values_are_distinct_and_ordered_ignoring_case() {
    let rows = vec![owned(&["b", "x"]), owned(&["A"]), owned(&["c", "y"]), owned(&["b", "z"])];
    assert_eq!(distinct_values(&rows, 0), owned(&["A", "b", "c"]));
    assert_eq!(distinct_values(&rows, 1), owned(&["", "x", "y", "z"]));
}
