//! Small state machines of the application shell (the local model and app
//! updates) and the verdicts shown for test results.
use vstd::prelude::*;
use crate::text::{chars_of, dec_int, extend_chars, extend_str, fmt_i64, str_eq, string_of};

verus! {

/// Whether the local language model can be used.
#[derive(Debug)]
pub enum ModelState {
    Checking,
    /// Downloading: percent done and the backend's status text.
    Pulling(u8, String),
    Ready,
    Error(String),
}

/// What the model check answered: available, missing, or an error.
pub enum ModelEvent {
    Checked(bool),
    Progress { percent: u8, status: String, done: bool },
    Failed(String),
}

/// The model state before any check: checking in the desktop app, ready in
/// a browser.
pub fn initial_model_state(desktop: bool) -> (s: ModelState)
    ensures
        desktop ==> s is Checking,
        !desktop ==> s is Ready,
{
    if desktop {
        ModelState::Checking
    } else {
        ModelState::Ready
    }
}

/// The model state after an event: a present model is ready and a missing
/// one starts downloading; progress updates the download until it is done;
/// a failure is shown.
pub fn next_model_state(event: ModelEvent) -> (s: ModelState)
    ensures
        (match event {
            ModelEvent::Checked(true) => s is Ready,
            ModelEvent::Checked(false) => s matches ModelState::Pulling(p, t) && p == 0 && t@ == "Starting\u{2026}"@,
            ModelEvent::Progress { percent, status, done } => if done {
                s is Ready
            } else {
                s == ModelState::Pulling(percent, status)
            },
            ModelEvent::Failed(e) => s == ModelState::Error(e),
        }),
{
    match event {
        ModelEvent::Checked(true) => ModelState::Ready,
        ModelEvent::Checked(false) => ModelState::Pulling(0, string_of(chars_of("Starting\u{2026}").as_slice())),
        ModelEvent::Progress { percent, status, done } => {
            if done {
                ModelState::Ready
            } else {
                ModelState::Pulling(percent, status)
            }
        },
        ModelEvent::Failed(e) => ModelState::Error(e),
    }
}

/// Whether a newer version of the app can be installed.
#[derive(Debug)]
pub enum UpdateState {
    Checking,
    Available { current: String, latest: String, url: String, name: String },
    Downloading(u8, String),
    Installing,
    UpToDate,
    Error(String),
}

/// The update state for a download progress report: installing once done,
/// otherwise downloading with the percent (cut to a byte) and the status
/// (`Downloading...` when none is given).
pub fn update_progress(percent: Option<u64>, status: Option<String>, done: Option<bool>) -> (s: UpdateState)
    ensures
        (match done {
            Some(true) => s is Installing,
            _ => (s matches UpdateState::Downloading(p, t) && p == (match percent {
                Some(n) => n as u8,
                None => 0u8,
            }) && t@ == (match status {
                Some(x) => x@,
                None => "Downloading..."@,
            })),
        }),
{
    let is_done = match done {
        Some(d) => d,
        None => false,
    };
    if is_done {
        return UpdateState::Installing;
    }
    let p: u8 = match percent {
        Some(n) => n as u8,
        None => 0u8,
    };
    let t = match status {
        Some(x) => x,
        None => string_of(chars_of("Downloading...").as_slice()),
    };
    UpdateState::Downloading(p, t)
}

/// The class of a top navigation button.
pub fn nav_class(active: &str, tab: &str) -> (s: &'static str)
    ensures
        s@ == (if active@ == tab@ {
            "nav-btn active"@
        } else {
            "nav-btn"@
        }),
{
    if str_eq(active, tab) {
        "nav-btn active"
    } else {
        "nav-btn"
    }
}

// ───────────────────────────── test result verdicts ─────────────────────────────

/// The header class, badge class and badge text of a script's result
/// (passed, failed and error counts), or of a script without a result.
pub open spec fn verdict_of(r: Option<(i64, i64, i64)>) -> (Seq<char>, Seq<char>, Seq<char>) {
    match r {
        None => ("s5-script-header"@, "s4-file-badge-pending"@, "No result"@),
        Some((p, f, e)) => if e > 0 && p == 0 && f == 0 {
            ("s5-script-header s5-header-error"@, "s4-file-badge-pending"@, "Error"@)
        } else if f > 0 {
            ("s5-script-header s5-header-fail"@, "s4-file-badge-mapping"@, "Fail"@)
        } else {
            ("s5-script-header s5-header-pass"@, "s4-file-badge-mapped"@, "Pass"@)
        },
    }
}

/// The verdict of a script's result (see `verdict_of`).
pub fn result_verdict(r: Option<(i64, i64, i64)>) -> (v: (&'static str, &'static str, &'static str))
    ensures
        (v.0@, v.1@, v.2@) == verdict_of(r),
{
    match r {
        None => ("s5-script-header", "s4-file-badge-pending", "No result"),
        Some((p, f, e)) => {
            if e > 0 && p == 0 && f == 0 {
                ("s5-script-header s5-header-error", "s4-file-badge-pending", "Error")
            } else if f > 0 {
                ("s5-script-header s5-header-fail", "s4-file-badge-mapping", "Fail")
            } else {
                ("s5-script-header s5-header-pass", "s4-file-badge-mapped", "Pass")
            }
        },
    }
}

/// The one-line summary of a script's result.
pub fn result_summary(passed: i64, failed: i64, errors: i64) -> (s: String)
    ensures
        s@ == "\u{2713} "@ + dec_int(passed as int) + " passed \u{b7} \u{2717} "@ + dec_int(failed as int)
            + " failed \u{b7} \u{26a0} "@ + dec_int(errors as int) + " errors"@,
{
    let mut v = chars_of("\u{2713} ");
    extend_chars(&mut v, fmt_i64(passed).as_slice());
    extend_str(&mut v, " passed \u{b7} \u{2717} ");
    extend_chars(&mut v, fmt_i64(failed).as_slice());
    extend_str(&mut v, " failed \u{b7} \u{26a0} ");
    extend_chars(&mut v, fmt_i64(errors).as_slice());
    extend_str(&mut v, " errors");
    string_of(v.as_slice())
}

/// Sums of passed, failed and error counts over the results.
pub open spec fn count_sums(rs: Seq<(i64, i64, i64)>) -> (int, int, int)
    decreases rs.len(),
{
    if rs.len() == 0 {
        (0, 0, 0)
    } else {
        let p = count_sums(rs.drop_last());
        (p.0 + rs.last().0, p.1 + rs.last().1, p.2 + rs.last().2)
    }
}

pub open spec fn fits_i64(n: int) -> bool {
    i64::MIN <= n <= i64::MAX
}

/// Each of the three sums fits in an `i64`.
pub open spec fn sums_fit(s: (int, int, int)) -> bool {
    fits_i64(s.0) && fits_i64(s.1) && fits_i64(s.2)
}

/// The totals of the result cards (assertions, passed, failed, errors);
/// `None` when a sum leaves the range of `i64`.
pub fn result_totals(rs: &[(i64, i64, i64)]) -> (t: Option<(i64, i64, i64, i64)>)
    ensures
        t matches Some(v) ==> v.1 == count_sums(rs@).0 && v.2 == count_sums(rs@).1 && v.3 == count_sums(rs@).2
            && v.0 == count_sums(rs@).0 + count_sums(rs@).1,
        t is None <==> (exists|i: int| 0 <= i <= rs@.len() && !sums_fit(#[trigger] count_sums(rs@.take(i))))
            || !fits_i64(count_sums(rs@).0 + count_sums(rs@).1),
{
    let mut p: i64 = 0;
    let mut f: i64 = 0;
    let mut e: i64 = 0;
    let mut i: usize = 0;
    assert(rs@.take(0) =~= Seq::<(i64, i64, i64)>::empty());
    while i < rs.len()
        invariant
            i <= rs.len(),
            (p as int, f as int, e as int) == count_sums(rs@.take(i as int)),
            forall|j: int| 0 <= j <= i ==> sums_fit(#[trigger] count_sums(rs@.take(j))),
        decreases rs.len() - i,
    {
        assert(rs@.take(i + 1).drop_last() =~= rs@.take(i as int));
        let (a, b, c) = rs[i];
        let ghost next = count_sums(rs@.take(i + 1));
        let np = p.checked_add(a);
        let nf = f.checked_add(b);
        let ne = e.checked_add(c);
        if np.is_none() || nf.is_none() || ne.is_none() {
            assert(!sums_fit(next));
            return None;
        }
        p = np.unwrap();
        f = nf.unwrap();
        e = ne.unwrap();
        i = i + 1;
    }
    assert(rs@.take(rs.len() as int) =~= rs@);
    match p.checked_add(f) {
        Some(total) => Some((total, p, f, e)),
        None => None,
    }
}

/// The expanded result after a click on a script card: a click on the
/// expanded card closes it, a click on another opens that one.
pub fn toggle_expanded(current: Option<String>, id: String) -> (next: Option<String>)
    ensures
        (current matches Some(c) && c@ == id@) ==> next is None,
        !(current matches Some(c) && c@ == id@) ==> (next matches Some(n) && n@ == id@),
{
    match current {
        Some(c) => {
            if str_eq(c.as_str(), id.as_str()) {
                None
            } else {
                Some(id)
            }
        },
        None => Some(id),
    }
}

/// The badge class for a risk level: `High` and `Low` have their own,
/// anything else shows as medium.
pub open spec fn risk_class(level: Seq<char>) -> Seq<char> {
    if level == "High"@ {
        "risk-badge high"@
    } else if level == "Low"@ {
        "risk-badge low"@
    } else {
        "risk-badge medium"@
    }
}

/// The CSS class of the badge that shows a risk level.
pub fn risk_badge_class(level: &str) -> (c: &'static str)
    ensures
        c@ == risk_class(level@),
{
    if crate::text::str_eq(level, "High") {
        "risk-badge high"
    } else if crate::text::str_eq(level, "Low") {
        "risk-badge low"
    } else {
        "risk-badge medium"
    }
}

/// The style of the approvals pill: green once every item is approved.
pub open spec fn count_badge_style_text(approved: nat, total: nat) -> Seq<char> {
    let done = total > 0 && approved == total;
    "font-size:11px;padding:2px 8px;border-radius:999px;flex-shrink:0;border:0.5px solid "@ + (if done {
        "#178856"@
    } else {
        "var(--w-border)"@
    }) + ";background:"@ + (if done {
        "rgba(23,136,86,0.12)"@
    } else {
        "var(--w-surface-1)"@
    }) + ";color:"@ + (if done {
        "#178856"@
    } else {
        "var(--w-text-3)"@
    })
}

/// The style and the `approved/total` text of the approvals pill.
pub fn count_badge(approved: usize, total: usize) -> (r: (String, String))
    ensures
        r.0@ == count_badge_style_text(approved as nat, total as nat),
        r.1@ == crate::text::dec(approved as nat) + "/"@ + crate::text::dec(total as nat),
{
    let done = total > 0 && approved == total;
    let mut st = chars_of("font-size:11px;padding:2px 8px;border-radius:999px;flex-shrink:0;border:0.5px solid ");
    extend_str(&mut st, if done { "#178856" } else { "var(--w-border)" });
    extend_str(&mut st, ";background:");
    extend_str(&mut st, if done { "rgba(23,136,86,0.12)" } else { "var(--w-surface-1)" });
    extend_str(&mut st, ";color:");
    extend_str(&mut st, if done { "#178856" } else { "var(--w-text-3)" });
    let mut t = crate::text::fmt_usize(approved);
    extend_str(&mut t, "/");
    let tv = crate::text::fmt_usize(total);
    extend_chars(&mut t, tv.as_slice());
    (string_of(st.as_slice()), string_of(t.as_slice()))
}

} // verus!
