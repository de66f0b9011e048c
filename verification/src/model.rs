//! The records that the audit workflow passes around: imported table
//! schemas, the audit plan with its controls, and PBC (provided-by-client)
//! data requests.
use vstd::prelude::*;
use crate::text::{extend_chars, extend_str, join};

verus! {

/// One imported table of the current session.
pub struct SessionSchema {
    pub table_name: String,
    pub columns: Vec<String>,
    pub row_count: i64,
    /// `"master"` for the joined master record, otherwise the import kind.
    pub source_type: String,
}

/// One control of an audit process.
pub struct Control {
    pub id: String,
    pub control_ref: String,
    pub control_objective: String,
    pub control_description: String,
    pub test_procedure: String,
    pub risk_level: String,
}

/// An audit process and its controls.
pub struct AuditProcessWithControls {
    pub process_name: String,
    pub description: String,
    pub controls: Vec<Control>,
}

/// One PBC data request.
pub struct PbcItem {
    pub id: String,
    pub name: String,
    pub control_ref: String,
    pub table_name: Option<String>,
    pub fields: Vec<String>,
    pub purpose: String,
    /// `SQL`, `CSV`, `Excel` or another kind of source.
    pub item_type: String,
    pub scope_format: String,
    pub approved: bool,
}

/// The PBC data requests that belong to one control.
pub struct PbcGroup {
    pub control_id: String,
    pub control_ref: String,
    pub title: String,
    pub process_name: String,
    pub items: Vec<PbcItem>,
}

/// The character sequences of a sequence of strings.
pub open spec fn strs(v: Seq<String>) -> Seq<Seq<char>> {
    Seq::new(v.len(), |i: int| v[i]@)
}

/// The character sequences of string pairs.
pub open spec fn pair_strs(v: Seq<(String, String)>) -> Seq<(Seq<char>, Seq<char>)> {
    Seq::new(v.len(), |i: int| (v[i].0@, v[i].1@))
}

/// Strings joined with a separator (`[String]::join`).
pub fn join_strings(parts: &[String], sep: &str) -> (r: Vec<char>)
    ensures
        r@ == join(strs(parts@), sep@),
{
    let mut r: Vec<char> = Vec::new();
    let mut i: usize = 0;
    while i < parts.len()
        invariant
            i <= parts.len(),
            r@ == join(strs(parts@).take(i as int), sep@),
        decreases parts.len() - i,
    {
        let ghost prev = strs(parts@).take(i as int);
        if i > 0 {
            extend_str(&mut r, sep);
        }
        extend_str(&mut r, parts[i].as_str());
        proof {
            let next = strs(parts@).take(i + 1);
            assert(next.drop_last() =~= prev);
            assert(next.last() == parts@[i as int]@);
            if i == 0 {
                assert(next =~= seq![parts@[0]@]);
            }
        }
        i = i + 1;
    }
    assert(strs(parts@).take(parts.len() as int) =~= strs(parts@));
    r
}

/// Whether the list holds the string.
pub fn contains_string(v: &[String], s: &str) -> (b: bool)
    ensures
        b == strs(v@).contains(s@),
{
    let mut i: usize = 0;
    while i < v.len()
        invariant
            i <= v.len(),
            forall|k: int| 0 <= k < i ==> strs(v@)[k] != s@,
        decreases v.len() - i,
    {
        if crate::text::str_eq(v[i].as_str(), s) {
            assert(strs(v@)[i as int] == s@);
            return true;
        }
        i = i + 1;
    }
    false
}

} // verus!
