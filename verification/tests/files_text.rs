use vinrouge_web::chunking::{chunk_sop, CHUNK_CHARS};
use vinrouge_web::files::{
    analysis_file_type, check_upload_name, distinct_headers, file_badge, is_data_file_type, mapped_pairs, put_data_file, upload_stats,
    uploads_status, DataFile, FileSource, FileType, UploadedFile,
};
use vinrouge_web::json::{field_equals, get_bool, get_field, get_u64, set_member, take_field, JsonNumber, JsonValue};
use vinrouge_web::keywords::{keywords_of, split_non_alnum};
use vinrouge_web::mapping::{
    accept_mappings, chunk_prompt, collect_fields, dedup_sources, mapping_context_json, mapping_prompt, normalize_map,
    numbered_columns, sorted_names, unmapped,
};
use vinrouge_web::model::{PbcGroup, PbcItem};
use vinrouge_web::text::{fmt_i64, lines_chars, replace_str, split_str, trim_chars};
use vinrouge_web::unicode::{eq_ignore_case, lower_str, upper_chars};

fn names(v: &[&str]) -> Vec<String> {
    v.iter().map(|s| s.to_string()).collect()
}

fn text(v: &[char]) -> String {
    v.iter().collect()
}

fn entry(k: &str, v: JsonValue) -> (String, JsonValue) {
    (k.to_string(), v)
}

fn data_file(name: &str, cols: &[&str]) -> DataFile {
    DataFile {
        local_id: name.to_string(),
        name: name.to_string(),
        columns: names(cols),
        mappings: vec![],
        source: FileSource::Saved(format!("id-{name}")),
    }
}

#[test]
fn upload_type_by_name_in_any_case() {
    let f = UploadedFile::detect("Ledger.XLSX".to_string(), vec![1, 2]);
    assert_eq!(f.file_type, FileType::Excel);
    assert_eq!(f.name, "Ledger.XLSX");
    assert_eq!(f.bytes, vec![1, 2]);
    assert_eq!(UploadedFile::detect("old.Xls".to_string(), vec![]).file_type, FileType::Excel);
    assert_eq!(UploadedFile::detect("data.csv".to_string(), vec![]).file_type, FileType::Csv);
    assert_eq!(UploadedFile::detect("noext".to_string(), vec![]).file_type, FileType::Csv);
}

#[test]
fn upload_names_checked_by_extension() {
    assert!(check_upload_name("a.CSV").is_ok());
    assert!(check_upload_name("b.tar.xlsx").is_ok());
    assert_eq!(
        check_upload_name("notes.PDF"),
        Err("Unsupported file type (.pdf) \u{2014} drop a CSV or Excel file".to_string())
    );
    assert_eq!(
        check_upload_name("README"),
        Err("Unsupported file type (.readme) \u{2014} drop a CSV or Excel file".to_string())
    );
}

#[test]
fn headers_deduplicated_after_trimming() {
    assert_eq!(distinct_headers(&names(&["id", " id ", "", "  ", "Amount", "amount"])), names(&["id", "Amount", "amount"]));
}

#[test]
fn data_file_replaced_by_name() {
    let mut files = vec![data_file("a.csv", &["x"]), data_file("b.csv", &["y"])];
    put_data_file(&mut files, data_file("a.csv", &["z"]));
    assert_eq!(files.len(), 2);
    assert_eq!(files[0].columns, names(&["z"]));
    put_data_file(&mut files, data_file("c.csv", &[]));
    assert_eq!(files.len(), 3);
    assert_eq!(files[2].name, "c.csv");
    assert!(matches!(&files[2].source, FileSource::Saved(id) if id == "id-c.csv"));
}

#[test]
fn short_sop_is_one_chunk() {
    assert_eq!(chunk_sop("hello\n\nworld"), names(&["hello\n\nworld"]));
    assert_eq!(chunk_sop(""), names(&[""]));
}

#[test]
fn long_sop_split_at_paragraphs() {
    let a = "a".repeat(5000);
    let b = "b".repeat(5000);
    let c = "c".repeat(100);
    let text = format!("{a}\n\n  \n\n{b}\n\n{c}");
    let chunks = chunk_sop(&text);
    assert_eq!(chunks, vec![a.clone(), format!("{b}\n\n{c}")]);
    assert!(chunks.iter().all(|k| k.len() <= CHUNK_CHARS));
}

#[test]
fn oversized_paragraph_is_cut_to_fit() {
    let big = "x".repeat(8000);
    let text = format!("intro\n\n{big}\n\nend");
    let tail = format!("{}\n\nend", "x".repeat(500));
    assert_eq!(chunk_sop(&text), vec!["intro".to_string(), "x".repeat(7500), tail]);
}

#[test]
fn long_paragraph_is_cut_at_a_sentence_end() {
    let para = "abcd. ".repeat(2000);
    let chunks = chunk_sop(&para);
    assert_eq!(chunks.len(), 2);
    assert_eq!(chunks[0], "abcd. ".repeat(1249) + "abcd.");
    assert_eq!(chunks[1], ("abcd. ".repeat(750)).trim_end().to_string());
    assert!(chunks.iter().all(|k| k.len() <= CHUNK_CHARS));
}

#[test]
fn long_paragraph_is_cut_at_a_line_break() {
    let line = format!("{}\n", "y".repeat(99));
    let para = line.repeat(100);
    let chunks = chunk_sop(&para);
    assert_eq!(chunks[0], line.repeat(75).trim_end().to_string());
    assert_eq!(chunks[1], line.repeat(25).trim_end().to_string());
    assert!(chunks.iter().all(|k| k.len() <= CHUNK_CHARS));
}

#[test]
fn blank_long_text_is_one_empty_chunk() {
    assert_eq!(chunk_sop(&" ".repeat(8000)), names(&[""]));
}

#[test]
fn json_lookups() {
    let v = JsonValue::Object(vec![
        entry("kind", JsonValue::Str("assert".to_string())),
        entry("passed", JsonValue::Bool(true)),
        entry("n", JsonValue::Number(JsonNumber::PosInt(7))),
        entry("kind", JsonValue::Str("shadowed".to_string())),
    ]);
    assert!(field_equals(&v, "kind", "assert"));
    assert_eq!(get_bool(&v, "passed"), Some(true));
    assert_eq!(get_u64(&v, "n"), Some(7));
    assert_eq!(get_u64(&v, "passed"), None);
    assert!(get_field(&v, "missing").is_none());
    assert!(matches!(take_field(v, "n"), Some(JsonValue::Number(JsonNumber::PosInt(7)))));
    let mut entries = vec![entry("a", JsonValue::Null)];
    set_member(&mut entries, "a".to_string(), JsonValue::Bool(false));
    set_member(&mut entries, "b".to_string(), JsonValue::Null);
    let obj = JsonValue::Object(entries);
    assert_eq!(get_bool(&obj, "a"), Some(false));
    assert!(get_field(&obj, "b").is_some());
}

#[test]
fn mapping_fields_and_suggestions() {
    let item = |fields: &[&str]| PbcItem {
        id: String::new(),
        name: String::new(),
        control_ref: String::new(),
        table_name: None,
        fields: names(fields),
        purpose: String::new(),
        item_type: "SQL".to_string(),
        scope_format: String::new(),
        approved: false,
    };
    let groups = vec![
        PbcGroup { control_id: "1".into(), control_ref: "C-1".into(), title: String::new(), process_name: String::new(), items: vec![item(&["claim_id", "amount"])] },
        PbcGroup { control_id: "2".into(), control_ref: "C-2".into(), title: String::new(), process_name: String::new(), items: vec![item(&["paid-date"])] },
    ];
    let fields = collect_fields(&groups);
    assert_eq!(fields, names(&["claim_id", "amount", "paid-date"]));
    let m = normalize_map(&names(&["Claim ID", "Paid_Date", "other"]), &fields);
    assert_eq!(
        m,
        vec![
            ("Claim ID".to_string(), "claim_id".to_string()),
            ("Paid_Date".to_string(), "paid-date".to_string()),
            ("other".to_string(), String::new()),
        ]
    );
}

#[test]
fn accepted_mappings_take_each_target_once() {
    let chunk = names(&["A", "B", "C"]);
    let fields = names(&["x", "y"]);
    let mut taken: Vec<String> = vec![];
    let mut mappings: Vec<(String, String)> = vec![];
    let m = |s: &str, t: &str| {
        JsonValue::Object(vec![entry("source", JsonValue::Str(s.to_string())), entry("target", JsonValue::Str(t.to_string()))])
    };
    let reply = JsonValue::Object(vec![entry(
        "mappings",
        JsonValue::Array(vec![m("A", "x"), m("B", "x"), m("Z", "y"), m("C", "nope")]),
    )]);
    accept_mappings(&chunk, &fields, &mut taken, &mut mappings, &reply);
    assert_eq!(taken, names(&["x"]));
    assert_eq!(
        mappings,
        vec![
            ("A".to_string(), "x".to_string()),
            ("B".to_string(), String::new()),
            ("C".to_string(), String::new()),
        ]
    );
    unmapped(&names(&["D"]), &mut mappings);
    assert_eq!(mappings.last(), Some(&("D".to_string(), String::new())));
    let d = dedup_sources(&vec![
        ("A".to_string(), "x".to_string()),
        ("A".to_string(), "y".to_string()),
        ("B".to_string(), String::new()),
    ]);
    assert_eq!(d, vec![("A".to_string(), "x".to_string()), ("B".to_string(), String::new())]);
}

#[test]
fn keywords_are_long_lowercase_words() {
    let k = keywords_of(&"Review of PAYROLL-approvals, 2024 q1".chars().collect::<Vec<_>>());
    let got: Vec<String> = k.iter().map(|w| text(w)).collect();
    assert_eq!(got, names(&["review", "payroll", "approvals", "2024"]));
}

#[test]
fn text_helpers() {
    assert_eq!(text(&lower_str("ÄBC Straße")), "äbc straße");
    assert_eq!(text(&upper_chars(&"size (10)".chars().collect::<Vec<_>>())), "SIZE (10)");
    let words = split_non_alnum(&"é7_x".chars().collect::<Vec<_>>());
    assert_eq!(words.iter().map(|w| text(w)).collect::<Vec<_>>(), names(&["é7", "x"]));
    assert!(eq_ignore_case("Gl_Table", "gl_TABLE"));
    assert!(!eq_ignore_case("gl", "gl2"));
    assert_eq!(text(&fmt_i64(-42)), "-42");
    assert_eq!(text(&trim_chars(&"  a b \n".chars().collect::<Vec<_>>())), "a b");
    let parts = split_str(&"a,,b".chars().collect::<Vec<_>>(), ",");
    assert_eq!(parts.iter().map(|p| text(p)).collect::<Vec<_>>(), names(&["a", "", "b"]));
    assert_eq!(text(&replace_str(&"a!=b!=c".chars().collect::<Vec<_>>(), "!=", "<>")), "a<>b<>c");
    let ls = lines_chars(&"x\r\ny\n".chars().collect::<Vec<_>>());
    assert_eq!(ls.iter().map(|p| text(p)).collect::<Vec<_>>(), names(&["x", "y"]));
}

#[test]
fn upload_list_badges_and_counters() {
    let pairs = |v: &[(&str, &str)]| v.iter().map(|(a, b)| (a.to_string(), b.to_string())).collect::<Vec<_>>();
    let mut full = data_file("a.csv", &["x", "y"]);
    full.mappings = pairs(&[("x", "f1"), ("y", "f2")]);
    let mut part = data_file("b.csv", &["x", "y", "z"]);
    part.mappings = pairs(&[("x", "f1"), ("y", ""), ("z", "")]);
    let none = data_file("c.xlsx", &["q"]);
    assert_eq!(file_badge(&full), ("s4-file-badge-mapped", "Mapped", "2 / 2 columns mapped".to_string()));
    assert_eq!(file_badge(&part), ("s4-file-badge-mapping", "Mapping\u{2026}", "1 / 3 columns mapped".to_string()));
    assert_eq!(file_badge(&none), ("s4-file-badge-pending", "Pending", "0 / 1 columns mapped".to_string()));
    assert_eq!(mapped_pairs(&part.mappings), pairs(&[("x", "f1")]));
    assert_eq!(upload_stats(&[full, part, none]), (3, 1, 6));
    assert_eq!(uploads_status(0), "No data files uploaded");
    assert_eq!(uploads_status(1), "1 file uploaded");
    assert_eq!(uploads_status(4), "4 files uploaded");
    assert!(is_data_file_type("xls"));
    assert!(!is_data_file_type("pdf"));
}

#[test]
fn analysis_reader_by_extension() {
    assert_eq!(analysis_file_type("ledger.CSV"), Ok(FileType::Csv));
    assert_eq!(analysis_file_type("Book.v2.Xlsx"), Ok(FileType::Excel));
    assert_eq!(analysis_file_type("old.xls"), Ok(FileType::Excel));
    assert_eq!(analysis_file_type("notes.TXT"), Err("Unsupported file type: .txt".to_string()));
    assert_eq!(analysis_file_type("README"), Err("Unsupported file type: .readme".to_string()));
}

#[test]
fn mapping_request_parts() {
    let f = vec!["b".to_string(), "a".to_string(), "b".to_string()];
    assert_eq!(sorted_names(&f), vec!["a".to_string(), "b".to_string()]);
    let cols = vec!["Amount".to_string(), "Date".to_string()];
    assert_eq!(numbered_columns(&cols), vec!["1. Amount".to_string(), "2. Date".to_string()]);
    assert_eq!(
        mapping_prompt("MAP\n", "[\"a\"]", "[]", "[]", "[\"1. Amount\"]", 1),
        "MAP\nALLOWED FIELDS:\n[\"a\"]\n\nAUDIT DATA REQUESTS (context):\n[]\n\nALREADY ASSIGNED (do NOT use these targets \u{2014} they are taken):\n[]\n\nSOURCE COLUMNS \u{2014} output EXACTLY 1 entries, one per column:\n[\"1. Amount\"]"
    );
}

fn request(cref: &str, name: &str, purpose: &str, fields: &[&str]) -> PbcItem {
    PbcItem {
        id: String::new(),
        name: name.to_string(),
        control_ref: cref.to_string(),
        table_name: None,
        fields: names(fields),
        purpose: purpose.to_string(),
        item_type: "SQL".to_string(),
        scope_format: String::new(),
        approved: false,
    }
}

fn mapping_groups() -> Vec<PbcGroup> {
    vec![
        PbcGroup {
            control_id: "1".into(),
            control_ref: "C-1".into(),
            title: String::new(),
            process_name: String::new(),
            items: vec![request("C-1", "Ledger", "Check \"totals\"", &["b", "a"]), request("C-1", "Memo", "", &[])],
        },
        PbcGroup {
            control_id: "2".into(),
            control_ref: "C-2".into(),
            title: String::new(),
            process_name: String::new(),
            items: vec![request("C-2", "Payroll", "Pay", &["a"])],
        },
    ]
}

#[test]
fn mapping_context_skips_requests_without_fields() {
    assert_eq!(
        mapping_context_json(&mapping_groups()),
        "[{\"audit_purpose\":\"Check \\\"totals\\\"\",\"control_ref\":\"C-1\",\"request_name\":\"Ledger\",\"required_fields\":[\"b\",\"a\"]},{\"audit_purpose\":\"Pay\",\"control_ref\":\"C-2\",\"request_name\":\"Payroll\",\"required_fields\":[\"a\"]}]"
    );
    assert_eq!(mapping_context_json(&[]), "[]");
}

#[test]
fn mapping_chunk_prompt() {
    let taken = names(&["z", "b", "z"]);
    let chunk = names(&["Amount", "Da\"te"]);
    let p = chunk_prompt("MAP\n", &mapping_groups(), &taken, &chunk);
    let expected = format!(
        "MAP\nALLOWED FIELDS:\n[\"a\",\"b\"]\n\nAUDIT DATA REQUESTS (context):\n{}\n\nALREADY ASSIGNED (do NOT use these targets \u{2014} they are taken):\n[\"b\",\"z\"]\n\nSOURCE COLUMNS \u{2014} output EXACTLY 2 entries, one per column:\n[\"1. Amount\",\"2. Da\\\"te\"]",
        mapping_context_json(&mapping_groups())
    );
    assert_eq!(p, expected);
}
