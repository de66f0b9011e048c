use vinrouge_web::dsl_syntax::normalize_dsl_syntax;
use vinrouge_web::generation::{
    build_fix_prompt, dsl_generation_prompt, fixed_script_for, repair_round, repair_step, settle_script, ScriptStatus,
};
use vinrouge_web::model::SessionSchema;
use vinrouge_web::repair::{cols_used_with, replace_table_in_script, rewrite_col_ref};
use vinrouge_web::script_fix::{
    drop_invalid_column_lines, fallback_sample_col, repair_column_in_wrong_table, repair_unknown_tables,
};
use vinrouge_web::table_match::best_table_match;

fn table(name: &str, cols: &[&str], kind: &str) -> SessionSchema {
    SessionSchema {
        table_name: name.to_string(),
        columns: cols.iter().map(|c| c.to_string()).collect(),
        row_count: 10,
        source_type: kind.to_string(),
    }
}

fn errs(v: &[&str]) -> Vec<String> {
    v.iter().map(|e| e.to_string()).collect()
}

fn insurer_tables() -> Vec<SessionSchema> {
    vec![
        table("c1_claims", &["claim_id", "amount"], "csv"),
        table("c9_premiumcollection", &["policy_id", "grace_period_breached"], "csv"),
    ]
}

#[test]
fn rewrite_col_ref_ignores_case_of_old_reference() {
    let r = rewrite_col_ref("ASSERT Master.Age > 1; master.age", "master", "age", "c5");
    assert_eq!(r, "ASSERT c5.age > 1; c5.age");
    assert_eq!(rewrite_col_ref("nothing here", "t", "c", "u"), "nothing here");
    let k = rewrite_col_ref("ASSERT Données.Été = 1 AND données.été > 0", "données", "été", "d2");
    assert_eq!(k, "ASSERT d2.été = 1 AND d2.été > 0");
}

#[test]
fn replace_table_rewrites_every_prefix() {
    let r = replace_table_in_script("ASSERT COUNT(Foo.id) > 0\nSAMPLE MUS FROM foo.amt SIZE 3", "foo", "bar");
    assert_eq!(r, "ASSERT COUNT(bar.id) > 0\nSAMPLE MUS FROM bar.amt SIZE 3");
}

#[test]
fn cols_used_with_sorted_and_distinct() {
    let r = cols_used_with("ASSERT SUM(foo.amt) > 0 AND foo.Date IS NOT NULL; foo.amt", "FOO");
    assert_eq!(r, Some(vec!["Date".to_string(), "amt".to_string()]));
    assert_eq!(cols_used_with("ASSERT x.y > 0", "foo"), Some(vec![]));
    assert_eq!(cols_used_with("ASSERT DONNÉES.Montant > 0", "données"), Some(vec!["Montant".to_string()]));
}

#[test]
fn best_table_match_uses_name_and_column_keywords() {
    let t = insurer_tables();
    let r = best_table_match("premium_arrears", "ASSERT premium_arrears.grace_period_days > 0", &t);
    assert_eq!(r, Some(Some("c9_premiumcollection")));
    let none = best_table_match("zzz", "ASSERT zzz.q > 0", &t);
    assert_eq!(none, Some(None));
}

#[test]
fn repair_unknown_tables_replaces_invented_name() {
    let t = insurer_tables();
    let e = errs(&["unknown table 'premium_arrears' referenced in 'premium_arrears.grace_period_days'"]);
    let r = repair_unknown_tables("ASSERT premium_arrears.grace_period_days > 0", &e, &t);
    assert_eq!(r, Some("ASSERT c9_premiumcollection.grace_period_days > 0".to_string()));
    assert_eq!(repair_unknown_tables("ASSERT a.b > 0", &[], &t), Some("ASSERT a.b > 0".to_string()));
}

#[test]
fn repair_column_moves_reference_to_owning_table() {
    let t = vec![
        table("master_record", &["x"], "master"),
        table("c5_basepremium", &["driver_age_band"], "csv"),
    ];
    let e = errs(&["unknown column 'driver_age_band' in table 'master_record'"]);
    let r = repair_column_in_wrong_table("ASSERT master_record.driver_age_band IS NOT NULL", &e, &t);
    assert_eq!(r, "ASSERT c5_basepremium.driver_age_band IS NOT NULL");
}

#[test]
fn repair_column_prefers_source_table_over_master() {
    let t = vec![
        table("bad", &["q"], "csv"),
        table("master_record", &["rate"], "master"),
        table("c2_rates", &["RATE"], "csv"),
    ];
    let e = errs(&["unknown column 'rate' in table 'bad'"]);
    let r = repair_column_in_wrong_table("ASSERT bad.rate > 0", &e, &t);
    assert_eq!(r, "ASSERT c2_rates.rate > 0");
}

#[test]
fn repair_column_skips_an_open_choice() {
    let e = errs(&["unknown column 'rate' in table 'bad'"]);
    let two_sources = vec![table("c1", &["rate"], "csv"), table("c2", &["rate"], "excel")];
    assert_eq!(repair_column_in_wrong_table("ASSERT bad.rate > 0", &e, &two_sources), "ASSERT bad.rate > 0");
    let two_masters = vec![table("m1", &["rate"], "master"), table("m2", &["rate"], "master")];
    assert_eq!(repair_column_in_wrong_table("ASSERT bad.rate > 0", &e, &two_masters), "ASSERT bad.rate > 0");
    let only_master = vec![table("m1", &["rate"], "master")];
    assert_eq!(repair_column_in_wrong_table("ASSERT bad.rate > 0", &e, &only_master), "ASSERT m1.rate > 0");
}

#[test]
fn drop_invalid_lines_keeps_the_rest() {
    let e = errs(&["unknown column 'x' in table 'a'"]);
    assert_eq!(drop_invalid_column_lines("ASSERT A.X > 0\nASSERT b.y > 0\n-- note", &e), "ASSERT b.y > 0\n-- note");
    assert_eq!(drop_invalid_column_lines("ASSERT a.x > 0\n", &[]), "ASSERT a.x > 0\n");
}

#[test]
fn fallback_column_from_label_then_script_then_default() {
    let t = vec![table("claims_2024", &["id", "amount"], "csv"), table("pay", &["gross"], "csv")];
    assert_eq!(fallback_sample_col(&[], "", "Claims approval", &t), Some("claims_2024.id".to_string()));
    assert_eq!(fallback_sample_col(&[], "ASSERT PAY.gross > 0", "xx", &t), Some("pay.gross".to_string()));
    assert_eq!(fallback_sample_col(&[], "", "xx", &t), Some("claims_2024.id".to_string()));
    assert_eq!(fallback_sample_col(&[], "", "xx", &[]), Some("data.id".to_string()));
}

#[test]
fn normalize_brackets_and_operators() {
    let n = |s: &str| normalize_dsl_syntax(s);
    assert_eq!(n("ASSERT x.status IN ['a', 'b']"), "ASSERT x.status IN ('a', 'b')");
    assert_eq!(n("ASSERT x.s IN ('[a]')"), "ASSERT x.s IN ('[a]')");
    assert_eq!(n("SAMPLE MUS FROM t.a SIZE {10}"), "SAMPLE MUS FROM t.a SIZE 10");
    assert_eq!(n("SAMPLE MUS FROM t.a SIZE [5%]"), "SAMPLE MUS FROM t.a SIZE 5%");
    assert_eq!(n("sample mus from t.a size {10}"), "sample mus from t.a SIZE 10");
    assert_eq!(n("ASSERT t.a != 3"), "ASSERT t.a <> 3");
    assert_eq!(n("ASSERT `t`.a > 0"), "ASSERT t.a > 0");
    assert_eq!(n("SAMPLE FULL_POPULATION FROM t.a"), "SAMPLE RANDOM FROM t.a");
}

#[test]
fn normalize_comments_and_counts() {
    let n = |s: &str| normalize_dsl_syntax(s);
    assert_eq!(n("-- [keep] != this"), "-- [keep] != this");
    assert_eq!(n("ASSERT COUNT(*) > 0"), "-- (removed: COUNT(*) not supported) ASSERT COUNT(*) > 0");
    assert_eq!(n("ASSERT COUNT(a.x) WHERE b.y = 1"), "ASSERT COUNT(a.x)");
    assert_eq!(n("ASSERT COUNT(a.x) WHERE a.y = 1"), "ASSERT COUNT(a.x) WHERE a.y = 1");
    assert_eq!(n("a != b\nc\n"), "a <> b\nc");
    assert_eq!(n("SAMPLE MUS FROM d\u{e9}p\u{f4}t.\u{e9}t\u{e9} SIZE {10}"), "SAMPLE MUS FROM d\u{e9}p\u{f4}t.\u{e9}t\u{e9} SIZE 10");
    assert_eq!(n("SAMPLE STRA\u{df}E FULL_POPULATION"), "SAMPLE STRA\u{df}E FULL_POPULATION");
    assert_eq!(n("\u{130} sample full_population from t.a"), "\u{130} SAMPLE RANDOM from t.a");
}

#[test]
fn repair_round_reports_change() {
    let t = insurer_tables();
    let e = errs(&["unknown table 'premium_arrears' referenced in 'premium_arrears.grace_period_days'"]);
    let r = repair_round("ASSERT premium_arrears.grace_period_days > 0", &e, &t);
    assert_eq!(r, Some(("ASSERT c9_premiumcollection.grace_period_days > 0".to_string(), true)));
    let same = repair_round("ASSERT a.b > 0", &errs(&["parse error: x"]), &t);
    assert_eq!(same, Some(("ASSERT a.b > 0".to_string(), false)));
}

#[test]
fn settle_valid_script_is_generated() {
    let t = insurer_tables();
    let r = settle_script("ASSERT c1_claims.amount > 0", &[], &[], "L", &t).unwrap();
    assert_eq!(r.0, "ASSERT c1_claims.amount > 0");
    assert!(matches!(r.1, ScriptStatus::Generated));
}

#[test]
fn settle_salvaged_script_is_generated() {
    let t = insurer_tables();
    let e = errs(&["unknown column 'zz' in table 'c1_claims'"]);
    let r = settle_script("ASSERT c1_claims.zz > 0\nASSERT c1_claims.amount > 0", &e, &[], "L", &t).unwrap();
    assert_eq!(r.0, "ASSERT c1_claims.amount > 0");
    assert!(matches!(r.1, ScriptStatus::Generated));
}

#[test]
fn settle_empty_salvage_names_missing_columns() {
    let t = vec![table("c1_claims", &["claim_id", "amount"], "csv")];
    let e = errs(&["unknown column 'zz' in table 'c1_claims'"]);
    let r = settle_script("ASSERT c1_claims.zz > 0", &e, &[], "L", &t).unwrap();
    assert_eq!(
        r.0,
        "-- Required columns not found in any uploaded data file:\n--   zz\n--\n-- AVAILABLE DATA:\n--   c1_claims : claim_id, amount\n--\n-- Upload the relevant data file, or rewrite this script\n-- using the available columns listed above."
    );
    match r.1 {
        ScriptStatus::ValidationError(m) => assert_eq!(m, "unknown column 'zz' in table 'c1_claims'"),
        _ => panic!("expected a validation error"),
    }
}

#[test]
fn settle_remaining_errors_fall_back_to_sample() {
    let t = vec![table("c1_claims", &["claim_id", "amount"], "csv")];
    let e = errs(&["parse error: bad token"]);
    let r = settle_script("ASSERT ((", &e, &e, "Claims", &t).unwrap();
    assert_eq!(
        r.0,
        "-- Validation failed: parse error: bad token\n-- Edit this script using the column names in AVAILABLE DATA.\nSAMPLE RANDOM FROM c1_claims.claim_id SIZE 10"
    );
    assert!(matches!(r.1, ScriptStatus::ValidationError(_)));
}

#[test]
fn fixed_script_later_fix_wins() {
    let fixed = vec![
        ("C-1".to_string(), "a".to_string(), "s1".to_string()),
        ("C-2".to_string(), "b".to_string(), "s2".to_string()),
        ("C-1".to_string(), "c".to_string(), "s3".to_string()),
    ];
    assert_eq!(fixed_script_for(&fixed, "C-1"), Some(("c".to_string(), "s3".to_string())));
    assert_eq!(fixed_script_for(&fixed, "C-2"), Some(("b".to_string(), "s2".to_string())));
    assert_eq!(fixed_script_for(&fixed, "C-9"), None);
}

#[test]
fn fix_prompt_hints_columns_and_missing_tables() {
    let t = vec![table("gl", &["amt", "date"], "csv")];
    let broken = vec![(
        "C-1".to_string(),
        "Ledger".to_string(),
        "ASSERT GL.x > 0".to_string(),
        "unknown column: GL.x; unknown table: nope".to_string(),
    )];
    let p = build_fix_prompt(&broken, "SCHEMA\n", "NAMES\n", "EXAMPLE\n", &t);
    assert!(p.starts_with("The following DSL scripts failed validation. Fix ONLY the errors listed.\n"));
    assert!(p.contains("AVAILABLE DATA:\nSCHEMA\nNAMES\nEXAMPLE\nBROKEN SCRIPTS TO FIX:\n"));
    assert!(p.contains(
        "control_ref: C-1\nlabel: Ledger\nbroken script:\nASSERT GL.x > 0\nerrors: unknown column: GL.x; unknown table: nope\n  Columns in gl: amt, date\n  Table 'nope' does NOT exist. Use one of: gl\n\n"
    ));
    assert!(p.ends_with("\"script\": \"fixed DSL here\"}]}"));
}

#[test]
fn repair_steps_stop_after_three_rounds_or_no_change() {
    let t = insurer_tables();
    let e = errs(&["unknown table 'premium_arrears' referenced in 'premium_arrears.grace_period_days'"]);
    let fixed = "ASSERT c9_premiumcollection.grace_period_days > 0".to_string();
    assert_eq!(repair_step(0, "ASSERT premium_arrears.grace_period_days > 0", &e, &t), Some(fixed.clone()));
    assert_eq!(repair_step(2, "ASSERT premium_arrears.grace_period_days > 0", &e, &t), Some(fixed));
    assert_eq!(repair_step(3, "ASSERT premium_arrears.grace_period_days > 0", &e, &t), None);
    assert_eq!(repair_step(0, "ASSERT a.b > 0", &[], &t), None);
    assert_eq!(repair_step(0, "ASSERT a.b > 0", &errs(&["parse error: x"]), &t), None);
}

#[test]
fn script_generation_prompt() {
    assert_eq!(
        dsl_generation_prompt("GEN\n", "S\n", "T\n", "E\n", "P\n"),
        "GEN\nAVAILABLE DATA:\nS\nT\nE\nAUDIT CONTROLS TO TEST:\nP\n\nReturn ONLY a JSON object: {\"scripts\": [{\"control_ref\": \"C-1\", \"label\": \"Test label\", \"script\": \"DSL code here\"}]}"
    );
}

#[test]
fn folded_matching_keeps_character_positions() {
    assert_eq!(cols_used_with("\u{212a} t.a", "t"), Some(vec!["a".to_string()]));
    assert_eq!(rewrite_col_ref("\u{212a} t.a", "T", "A", "u"), "\u{212a} u.A");
}
