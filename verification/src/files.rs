//! Uploaded files and the format each one is read as.
use vstd::prelude::*;
use crate::text::same_chars;
use crate::model::{pair_strs, strs};
use crate::text::{
    chars_of, dec, ends_with, ends_with_str, extend_chars, extend_str, seqs_of, split, split_str, str_eq,
    string_of, trim, trim_chars,
};
use crate::unicode::{lower_chars, lower_str, lowercase};

verus! {

/// How an uploaded file is parsed.
#[derive(Clone, Copy, Debug, PartialEq, Eq, Structural)]
pub enum FileType {
    Excel,
    Csv,
}

/// A file picked by the user, with its raw contents.
pub struct UploadedFile {
    pub name: String,
    pub bytes: Vec<u8>,
    pub file_type: FileType,
}

/// A spreadsheet name: its lowercase form ends in `.xlsx` or `.xls`.
pub open spec fn is_spreadsheet_name(name: Seq<char>) -> bool {
    ends_with(lowercase(name), ".xlsx"@) || ends_with(lowercase(name), ".xls"@)
}

impl UploadedFile {
    /// Wraps a file, reading it as Excel when its name (in any case) ends in
    /// `.xlsx` or `.xls` and as CSV otherwise.
    pub fn detect(name: String, bytes: Vec<u8>) -> (f: Self)
        ensures
            f.name@ == name@,
            f.bytes@ == bytes@,
            f.file_type == (if is_spreadsheet_name(name@) {
                FileType::Excel
            } else {
                FileType::Csv
            }),
    {
        let lower = lower_str(name.as_str());
        let file_type = if ends_with_str(lower.as_slice(), ".xlsx") || ends_with_str(lower.as_slice(), ".xls") {
            FileType::Excel
        } else {
            FileType::Csv
        };
        UploadedFile { name, bytes, file_type }
    }
}


// ───────────────────────────── uploads of data files ─────────────────────────────

/// The extension of a file name: what follows the last `.` (the whole name
/// when there is none), lowercased.
pub open spec fn extension_of(name: Seq<char>) -> Seq<char> {
    let parts = split(name, "."@);
    lowercase(parts.last())
}

/// The message shown for a file that is neither CSV nor Excel, if it is not.
pub open spec fn upload_refusal(name: Seq<char>) -> Option<Seq<char>> {
    let ext = extension_of(name);
    if ext == "csv"@ || ext == "xlsx"@ || ext == "xls"@ {
        None
    } else {
        Some("Unsupported file type (."@ + ext + ") \u{2014} drop a CSV or Excel file"@)
    }
}

/// Accepts a CSV or Excel file by its extension (in any case), or returns
/// the message that refuses it.
pub fn check_upload_name(name: &str) -> (r: Result<(), String>)
    ensures
        r is Ok <==> upload_refusal(name@) is None,
        r matches Err(m) ==> upload_refusal(name@) == Some(m@),
{
    let nv = chars_of(name);
    proof {
        reveal_strlit(".");
        crate::text::lemma_split_nonempty(nv@, "."@);
    }
    let parts = split_str(nv.as_slice(), ".");
    let last = &parts[parts.len() - 1];
    assert(seqs_of(parts@).last() == last@);
    let ext = lower_chars(last.as_slice());
    let es = string_of(ext.as_slice());
    if str_eq(es.as_str(), "csv") || str_eq(es.as_str(), "xlsx") || str_eq(es.as_str(), "xls") {
        Ok(())
    } else {
        let mut m = chars_of("Unsupported file type (.");
        extend_chars(&mut m, ext.as_slice());
        extend_str(&mut m, ") \u{2014} drop a CSV or Excel file");
        Err(string_of(m.as_slice()))
    }
}

/// Cutting `base.e` at its dots ends with `e` when `e` has no dot.
proof fn lemma_last_piece(base: Seq<char>, e: Seq<char>)
    requires
        forall|i: int| 0 <= i < e.len() ==> e[i] != '.',
    ensures
        split(base + "."@ + e, "."@).last() == e,
    decreases base.len(),
{
    reveal_strlit(".");
    let pat = "."@;
    let s = base + pat + e;
    crate::text::lemma_find_from(s, pat, 0);
    assert(crate::text::matches_at(s, pat, base.len() as int)) by {
        assert(s.subrange(base.len() as int, base.len() as int + 1) =~= pat);
    }
    let m = crate::text::find(s, pat)->0;
    assert(m <= base.len());
    assert(s[m] == '.') by {
        assert(s.subrange(m, m + 1) == pat);
        assert(s.subrange(m, m + 1)[0] == s[m]);
    }
    assert(s.skip(0) =~= s);
    crate::text::lemma_split_step(s, pat, 0);
    let rest = s.skip(m + 1);
    crate::text::lemma_split_nonempty(rest, pat);
    if m == base.len() {
        assert(rest =~= e);
        crate::text::lemma_find_from(e, pat, 0);
        if crate::text::find(e, pat) is Some {
            let m2 = crate::text::find(e, pat)->0;
            assert(e.subrange(m2, m2 + 1) == pat);
            assert(e.subrange(m2, m2 + 1)[0] == e[m2]);
        }
        assert(e.skip(0) =~= e);
        crate::text::lemma_split_step(e, pat, 0);
    } else {
        assert(base[m] == '.');
        let b2 = base.skip(m + 1);
        assert(rest =~= b2 + pat + e);
        lemma_last_piece(b2, e);
    }
}

/// A file whose extension (the text after its last dot) is `csv`, `xlsx`
/// or `xls` in any case is accepted for upload, and any other is refused
/// with a message that names the extension; the analysis reads `csv` as CSV
/// and `xlsx` and `xls` as Excel, and refuses any other.
pub proof fn law_upload_accepts_csv_and_excel(base: Seq<char>, e: Seq<char>)
    requires
        forall|i: int| 0 <= i < e.len() ==> e[i] != '.',
    ensures
        (lowercase(e) == "csv"@ || lowercase(e) == "xlsx"@ || lowercase(e) == "xls"@) <==> upload_refusal(
            base + "."@ + e,
        ) is None,
        upload_refusal(base + "."@ + e) matches Some(m) ==> m == "Unsupported file type (."@ + lowercase(e)
            + ") \u{2014} drop a CSV or Excel file"@,
        lowercase(e) == "csv"@ ==> analysis_format(base + "."@ + e) == Ok::<FileType, Seq<char>>(FileType::Csv),
        (lowercase(e) == "xlsx"@ || lowercase(e) == "xls"@) ==> analysis_format(base + "."@ + e) == Ok::<
            FileType,
            Seq<char>,
        >(FileType::Excel),
        !(lowercase(e) == "csv"@ || lowercase(e) == "xlsx"@ || lowercase(e) == "xls"@) ==> analysis_format(
            base + "."@ + e,
        ) is Err,
{
    lemma_last_piece(base, e);
    assert(extension_of(base + "."@ + e) == lowercase(e));
    reveal_strlit("csv");
    reveal_strlit("xlsx");
    reveal_strlit("xls");
    assert("xlsx"@ != "csv"@) by {
        assert("xlsx"@.len() != "csv"@.len());
    }
    assert("xls"@ != "csv"@) by {
        assert("xls"@[1] != "csv"@[1]);
    }
}

/// How the analysis reads a file, by its extension: as CSV for `csv`, as
/// Excel for `xlsx` and `xls`; any other extension is refused.
pub open spec fn analysis_format(name: Seq<char>) -> Result<FileType, Seq<char>> {
    let ext = extension_of(name);
    if ext == "csv"@ {
        Ok(FileType::Csv)
    } else if ext == "xlsx"@ || ext == "xls"@ {
        Ok(FileType::Excel)
    } else {
        Err("Unsupported file type: ."@ + ext)
    }
}

/// The reader the analysis of a file uses, or the message that refuses it.
pub fn analysis_file_type(name: &str) -> (r: Result<FileType, String>)
    ensures
        match r {
            Ok(t) => analysis_format(name@) == Ok::<FileType, Seq<char>>(t),
            Err(m) => analysis_format(name@) == Err::<FileType, Seq<char>>(m@),
        },
{
    let nv = chars_of(name);
    proof {
        reveal_strlit(".");
        crate::text::lemma_split_nonempty(nv@, "."@);
    }
    let parts = split_str(nv.as_slice(), ".");
    let last = &parts[parts.len() - 1];
    assert(seqs_of(parts@).last() == last@);
    let ext = lower_chars(last.as_slice());
    let es = string_of(ext.as_slice());
    if str_eq(es.as_str(), "csv") {
        Ok(FileType::Csv)
    } else if str_eq(es.as_str(), "xlsx") || str_eq(es.as_str(), "xls") {
        Ok(FileType::Excel)
    } else {
        let mut m = chars_of("Unsupported file type: .");
        extend_chars(&mut m, ext.as_slice());
        Err(string_of(m.as_slice()))
    }
}

/// The headers kept from an upload: those that are not blank and whose
/// trimmed text has not been seen before, as written.
pub open spec fn distinct_headers_upto(hs: Seq<Seq<char>>, n: nat) -> Seq<Seq<char>>
    decreases n,
{
    if n == 0 || n > hs.len() {
        Seq::empty()
    } else {
        let p = distinct_headers_upto(hs, (n - 1) as nat);
        let h = hs[n - 1];
        if trim(h).len() > 0 && !p.map_values(|x: Seq<char>| trim(x)).contains(trim(h)) {
            p.push(h)
        } else {
            p
        }
    }
}

/// Drops blank headers and headers whose trimmed text came earlier (the
/// same column on several sheets is mapped once).
pub fn distinct_headers(headers: &[String]) -> (r: Vec<String>)
    ensures
        strs(r@) == distinct_headers_upto(strs(headers@), headers@.len() as nat),
{
    let ghost hv = strs(headers@);
    let ghost tf = |x: Seq<char>| trim(x);
    let mut r: Vec<String> = Vec::new();
    let mut seen: Vec<Vec<char>> = Vec::new();
    let mut i: usize = 0;
    while i < headers.len()
        invariant
            i <= headers.len(),
            hv == strs(headers@),
            tf == (|x: Seq<char>| trim(x)),
            strs(r@) == distinct_headers_upto(hv, i as nat),
            seqs_of(seen@) == strs(r@).map_values(tf),
        decreases headers.len() - i,
    {
        let t = trim_chars(chars_of(headers[i].as_str()).as_slice());
        let mut dup = false;
        let mut k: usize = 0;
        while k < seen.len()
            invariant
                k <= seen.len(),
                dup == exists|q: int| 0 <= q < k && seqs_of(seen@)[q] == t@,
            decreases seen.len() - k,
        {
            assert(seqs_of(seen@)[k as int] == seen@[k as int]@);
            if same_chars(seen[k].as_slice(), t.as_slice()) {
                dup = true;
            }
            k = k + 1;
        }
        assert(dup == seqs_of(seen@).contains(t@));
        if t.len() > 0 && !dup {
            let ghost pr = strs(r@);
            let ghost ps = seqs_of(seen@);
            r.push(headers[i].clone());
            seen.push(t);
            assert(strs(r@) =~= pr.push(hv[i as int]));
            assert(seqs_of(seen@) =~= ps.push(tf(hv[i as int])));
            assert(strs(r@).map_values(tf) =~= pr.map_values(tf).push(tf(hv[i as int])));
        }
        i = i + 1;
    }
    r
}

// ───────────────────────────── data files of the upload step ─────────────────────────────

#[verifier::external_type_specification]
#[verifier::external_body]
pub struct ExBrowserFile(web_sys::File);

/// Where the bytes of an uploaded file live.
pub enum FileSource {
    /// Dropped in the browser, not yet saved to the project.
    Browser(web_sys::File),
    /// Saved to the project under this id.
    Saved(String),
}

/// A data file of the upload step; `local_id` is its name.
pub struct DataFile {
    pub local_id: String,
    pub name: String,
    pub columns: Vec<String>,
    pub mappings: Vec<(String, String)>,
    pub source: FileSource,
}

/// Adds an uploaded file to the list, replacing the first file of the same
/// name if there is one.
pub fn put_data_file(files: &mut Vec<DataFile>, df: DataFile)
    ensures
        (match crate::seqs::first_index(old(files)@, |d: DataFile| d.name@ == df.name@) {
            Some(k) => final(files)@ == old(files)@.update(k, df),
            None => final(files)@ == old(files)@.push(df),
        }),
{
    let ghost f0 = files@;
    let ghost p = |d: DataFile| d.name@ == df.name@;
    let mut k: usize = 0;
    while k < files.len()
        invariant
            k <= files.len(),
            files@ == f0,
            f0 == old(files)@,
            p == (|d: DataFile| d.name@ == df.name@),
            crate::seqs::first_index(f0, p) == crate::seqs::first_index_from(f0, p, k as int),
        decreases files.len() - k,
    {
        if str_eq(files[k].name.as_str(), df.name.as_str()) {
            assert(p(f0[k as int]));
            assert(crate::seqs::first_index_from(f0, p, k as int) == Some(k as int));
            files.remove(k);
            files.insert(k, df);
            assert(files@ =~= f0.update(k as int, df));
            return;
        }
        k = k + 1;
    }
    files.push(df);
}

// ───────────────────────────── the upload screen ─────────────────────────────


/// The mappings that name a field, in order.
pub open spec fn kept_mappings(ms: Seq<(Seq<char>, Seq<char>)>) -> Seq<(Seq<char>, Seq<char>)> {
    ms.filter(|m: (Seq<char>, Seq<char>)| m.1.len() > 0)
}

/// The mappings of a file that name a field: those are saved with it.
pub fn mapped_pairs(ms: &[(String, String)]) -> (r: Vec<(String, String)>)
    ensures
        pair_strs(r@) == kept_mappings(pair_strs(ms@)),
{
    let ghost keep = |m: (Seq<char>, Seq<char>)| m.1.len() > 0;
    let ghost mv = pair_strs(ms@);
    let mut r: Vec<(String, String)> = Vec::new();
    let mut i: usize = 0;
    assert(mv.take(0).filter(keep) =~= Seq::<(Seq<char>, Seq<char>)>::empty());
    assert(pair_strs(r@) =~= Seq::<(Seq<char>, Seq<char>)>::empty());
    while i < ms.len()
        invariant
            i <= ms.len(),
            mv == pair_strs(ms@),
            keep == (|m: (Seq<char>, Seq<char>)| m.1.len() > 0),
            pair_strs(r@) == mv.take(i as int).filter(keep),
        decreases ms.len() - i,
    {
        proof {
            mv.take(i as int).lemma_filter_push(mv[i as int], keep);
            assert(mv.take(i + 1) =~= mv.take(i as int).push(mv[i as int]));
        }
        if chars_of(ms[i].1.as_str()).len() > 0 {
            let ghost p = pair_strs(r@);
            r.push((ms[i].0.clone(), ms[i].1.clone()));
            assert(pair_strs(r@) =~= p.push(mv[i as int]));
        }
        i = i + 1;
    }
    assert(mv.take(ms.len() as int) =~= mv);
    r
}

/// The badge of a file in the list and its caption: mapped when every
/// column has a field, mapping when some have, pending otherwise.
pub open spec fn file_badge_text(mapped: nat, total: nat) -> (Seq<char>, Seq<char>, Seq<char>) {
    (
        if total > 0 && mapped == total {
            "s4-file-badge-mapped"@
        } else if mapped > 0 {
            "s4-file-badge-mapping"@
        } else {
            "s4-file-badge-pending"@
        },
        if total > 0 && mapped == total {
            "Mapped"@
        } else if mapped > 0 {
            "Mapping\u{2026}"@
        } else {
            "Pending"@
        },
        dec(mapped) + " / "@ + dec(total) + " columns mapped"@,
    )
}

/// The badge class, badge text and caption of a file in the list.
pub fn file_badge(f: &DataFile) -> (r: (&'static str, &'static str, String))
    ensures
        (r.0@, r.1@, r.2@) == file_badge_text(
            kept_mappings(pair_strs(f.mappings@)).len(),
            f.columns@.len(),
        ),
{
    let kept = mapped_pairs(f.mappings.as_slice());
    let mapped = kept.len();
    let total = f.columns.len();
    let (cls, txt) = if total > 0 && mapped == total {
        ("s4-file-badge-mapped", "Mapped")
    } else if mapped > 0 {
        ("s4-file-badge-mapping", "Mapping\u{2026}")
    } else {
        ("s4-file-badge-pending", "Pending")
    };
    let mut cap = crate::text::fmt_usize(mapped);
    extend_str(&mut cap, " / ");
    extend_chars(&mut cap, crate::text::fmt_usize(total).as_slice());
    extend_str(&mut cap, " columns mapped");
    (cls, txt, string_of(cap.as_slice()))
}

/// A file is fully mapped when it has mappings and each names a field.
pub open spec fn fully_mapped(f: DataFile) -> bool {
    f.mappings@.len() > 0 && forall|k: int| 0 <= k < f.mappings@.len() ==> (#[trigger] f.mappings@[k]).1@.len() > 0
}

pub open spec fn fully_mapped_count(fs: Seq<DataFile>) -> nat
    decreases fs.len(),
{
    if fs.len() == 0 {
        0
    } else {
        fully_mapped_count(fs.drop_last()) + (if fully_mapped(fs.last()) { 1nat } else { 0nat })
    }
}

pub open spec fn columns_total(fs: Seq<DataFile>) -> nat
    decreases fs.len(),
{
    if fs.len() == 0 {
        0
    } else {
        columns_total(fs.drop_last()) + fs.last().columns@.len()
    }
}

fn is_fully_mapped(f: &DataFile) -> (b: bool)
    ensures
        b == fully_mapped(*f),
{
    if f.mappings.len() == 0 {
        return false;
    }
    let mut k: usize = 0;
    while k < f.mappings.len()
        invariant
            k <= f.mappings.len(),
            forall|q: int| 0 <= q < k ==> (#[trigger] f.mappings@[q]).1@.len() > 0,
        decreases f.mappings.len() - k,
    {
        if chars_of(f.mappings[k].1.as_str()).len() == 0 {
            return false;
        }
        k = k + 1;
    }
    true
}

proof fn lemma_fully_mapped_count_le(fs: Seq<DataFile>)
    ensures
        fully_mapped_count(fs) <= fs.len(),
    decreases fs.len(),
{
    if fs.len() > 0 {
        lemma_fully_mapped_count_le(fs.drop_last());
    }
}

proof fn lemma_columns_total_prefix(fs: Seq<DataFile>, i: int)
    requires
        0 <= i <= fs.len(),
    ensures
        columns_total(fs.take(i)) <= columns_total(fs),
    decreases fs.len() - i,
{
    if i < fs.len() {
        assert(fs.take(i + 1).drop_last() =~= fs.take(i));
        lemma_columns_total_prefix(fs, i + 1);
    } else {
        assert(fs.take(i) =~= fs);
    }
}

/// The counters under the file list: files, fully mapped files and columns.
pub fn upload_stats(files: &[DataFile]) -> (r: (usize, usize, usize))
    requires
        columns_total(files@) <= usize::MAX,
    ensures
        r.0 == files@.len(),
        r.1 == fully_mapped_count(files@),
        r.2 == columns_total(files@),
{
    let mut mapped: usize = 0;
    let mut cols: usize = 0;
    let mut i: usize = 0;
    while i < files.len()
        invariant
            i <= files.len(),
            columns_total(files@) <= usize::MAX,
            mapped == fully_mapped_count(files@.take(i as int)),
            cols == columns_total(files@.take(i as int)),
        decreases files.len() - i,
    {
        assert(files@.take(i + 1).drop_last() =~= files@.take(i as int));
        proof {
            lemma_fully_mapped_count_le(files@.take(i as int));
            lemma_columns_total_prefix(files@, i + 1);
        }
        if is_fully_mapped(&files[i]) {
            mapped = mapped + 1;
        }
        cols = cols + files[i].columns.len();
        i = i + 1;
    }
    assert(files@.take(files.len() as int) =~= files@);
    (files.len(), mapped, cols)
}

/// The status text of the upload screen.
pub fn uploads_status(n: usize) -> (s: String)
    ensures
        s@ == (if n == 0 {
            "No data files uploaded"@
        } else {
            dec(n as nat) + " file"@ + (if n == 1 { ""@ } else { "s"@ }) + " uploaded"@
        }),
{
    if n == 0 {
        return string_of(chars_of("No data files uploaded").as_slice());
    }
    let mut v = crate::text::fmt_usize(n);
    extend_str(&mut v, " file");
    extend_str(&mut v, if n == 1 { "" } else { "s" });
    extend_str(&mut v, " uploaded");
    string_of(v.as_slice())
}

/// The project files the upload step lists: CSV and Excel files.
pub fn is_data_file_type(file_type: &str) -> (b: bool)
    ensures
        b == (file_type@ == "csv"@ || file_type@ == "xlsx"@ || file_type@ == "xls"@),
{
    str_eq(file_type, "csv") || str_eq(file_type, "xlsx") || str_eq(file_type, "xls")
}

} // verus!
