//! The requests sent to the language model while a plan and its data
//! requests are generated: the prompts for each part, their retries, and the
//! progress shown meanwhile.
use vstd::prelude::*;
use crate::json::{array_of, field, get_array, JsonValue};
use crate::model::AuditProcessWithControls;
use crate::prompts::{format_plan_chunk, plan_text};
use crate::text::{chars_of, dec, extend_chars, extend_str, fmt_usize, string_of};

verus! {

/// The number of processes sent per data-request generation.
pub const PBC_CHUNK_PROCESSES: usize = 3;

/// Progress of data-request generation for the part of the plan that starts
/// at part `i` and has `len` processes.
pub open spec fn pbc_progress_text(i: nat, len: nat, plan_len: nat) -> Seq<char> {
    let last = i * 3 + len;
    "Generating data requests: processes "@ + dec(i * 3 + 1) + " \u{2013} "@ + dec(
        if last <= plan_len {
            last
        } else {
            plan_len
        },
    ) + " of "@ + dec(plan_len) + "\u{2026}"@
}

/// The progress line shown before the request for part `i` of the plan
/// (parts of `PBC_CHUNK_PROCESSES` processes).
pub fn pbc_progress(i: usize, len: usize, plan_len: usize) -> (s: String)
    requires
        i * 3 + len + 1 <= usize::MAX,
    ensures
        s@ == pbc_progress_text(i as nat, len as nat, plan_len as nat),
{
    let first = i * 3 + 1;
    let last = if i * 3 + len <= plan_len { i * 3 + len } else { plan_len };
    let mut s = chars_of("Generating data requests: processes ");
    extend_chars(&mut s, fmt_usize(first).as_slice());
    extend_str(&mut s, " \u{2013} ");
    extend_chars(&mut s, fmt_usize(last).as_slice());
    extend_str(&mut s, " of ");
    extend_chars(&mut s, fmt_usize(plan_len).as_slice());
    extend_str(&mut s, "\u{2026}");
    string_of(s.as_slice())
}

/// The data-request prompt for part of a plan: the instructions, a blank
/// line, and the part as plain text.
pub fn pbc_prompt(base: &str, chunk: &[AuditProcessWithControls]) -> (s: String)
    ensures
        s@ == base@ + "\n\n"@ + plan_text(chunk@),
{
    let mut s = chars_of(base);
    extend_str(&mut s, "\n\n");
    let t = format_plan_chunk(chunk);
    extend_str(&mut s, t.as_str());
    string_of(s.as_slice())
}

/// The retry of a data-request prompt whose reply had no items.
pub fn pbc_retry_prompt(prompt: &str) -> (s: String)
    ensures
        s@ == "CRITICAL: Your response was missing the required 'items' array or was invalid. Return ONLY valid JSON with an 'items' array of data request objects.\n\nOriginal request:\n"@
            + prompt@,
{
    let mut s = chars_of(
        "CRITICAL: Your response was missing the required 'items' array or was invalid. Return ONLY valid JSON with an 'items' array of data request objects.\n\nOriginal request:\n",
    );
    extend_str(&mut s, prompt);
    string_of(s.as_slice())
}

/// `"<what> <n> of <total>…"`.
pub open spec fn counted(what: Seq<char>, n: nat, total: nat) -> Seq<char> {
    what + " "@ + dec(n) + " of "@ + dec(total) + "\u{2026}"@
}

/// A progress line such as `Retrying chunk 2 of 3…`.
pub fn counted_progress(what: &str, n: usize, total: usize) -> (s: String)
    ensures
        s@ == counted(what@, n as nat, total as nat),
{
    let mut s = chars_of(what);
    extend_str(&mut s, " ");
    extend_chars(&mut s, fmt_usize(n).as_slice());
    extend_str(&mut s, " of ");
    extend_chars(&mut s, fmt_usize(total).as_slice());
    extend_str(&mut s, "\u{2026}");
    string_of(s.as_slice())
}

/// The plan prompt for section `i` (from 0) of `total` SOP sections: a lone
/// section follows the instructions after a blank line; one of several is
/// introduced by a note that says which section it is.
pub open spec fn section_prompt_text(base: Seq<char>, i: nat, total: nat, chunk: Seq<char>) -> Seq<char> {
    if total > 1 {
        base + "\n[Document is split into "@ + dec(total) + " sections for processing. This is section "@ + dec(i + 1)
            + " of "@ + dec(total)
            + ". Analyse ONLY the content below \u{2014} do not fabricate content for sections not shown. Sections are merged after all have been processed.]\n\n"@
            + chunk
    } else {
        base + "\n\n"@ + chunk
    }
}

/// Builds the plan prompt for one SOP section (see `section_prompt_text`).
pub fn section_prompt(base: &str, i: usize, total: usize, chunk: &str) -> (s: String)
    requires
        i < usize::MAX,
    ensures
        s@ == section_prompt_text(base@, i as nat, total as nat, chunk@),
{
    let mut s = chars_of(base);
    if total > 1 {
        extend_str(&mut s, "\n[Document is split into ");
        extend_chars(&mut s, fmt_usize(total).as_slice());
        extend_str(&mut s, " sections for processing. This is section ");
        extend_chars(&mut s, fmt_usize(i + 1).as_slice());
        extend_str(&mut s, " of ");
        extend_chars(&mut s, fmt_usize(total).as_slice());
        extend_str(
            &mut s,
            ". Analyse ONLY the content below \u{2014} do not fabricate content for sections not shown. Sections are merged after all have been processed.]\n\n",
        );
    } else {
        extend_str(&mut s, "\n\n");
    }
    extend_str(&mut s, chunk);
    string_of(s.as_slice())
}

/// The retry of a plan prompt whose reply had no usable processes.
pub fn plan_retry_prompt(prompt: &str) -> (s: String)
    ensures
        s@ == "CRITICAL: Your previous response was missing the required 'processes' array or was structurally invalid. Return ONLY valid JSON with a 'processes' array.\n\nOriginal request:\n"@
            + prompt@,
{
    let mut s = chars_of(
        "CRITICAL: Your previous response was missing the required 'processes' array or was structurally invalid. Return ONLY valid JSON with a 'processes' array.\n\nOriginal request:\n",
    );
    extend_str(&mut s, prompt);
    string_of(s.as_slice())
}

// ───────────────────────────── the request loop ─────────────────────────────

/// Where a section-by-section request stands: `next` is the part asked
/// about now (all are done when it reaches `total`), `retry` whether the
/// question is asked a second time, `kept` how many replies were kept.
pub struct SectionLoop {
    pub total: usize,
    pub next: usize,
    pub retry: bool,
    pub kept: usize,
}

/// What is left to do: two questions per part not yet done, one less when
/// the current part is on its second question.
pub open spec fn work_left(l: SectionLoop) -> int {
    2 * (l.total - l.next) - (if l.retry { 1int } else { 0int })
}

/// A loop whose parts are consistent: no part past the end, a retry only on
/// an actual part, and no more replies kept than parts done.
pub open spec fn loop_wf(l: SectionLoop) -> bool {
    &&& l.next <= l.total
    &&& l.retry ==> l.next < l.total
    &&& l.kept <= l.next
}

/// The loop before the first question.
pub fn start_sections(total: usize) -> (l: SectionLoop)
    ensures
        l.total == total,
        l.next == 0,
        !l.retry,
        l.kept == 0,
        loop_wf(l),
{
    SectionLoop { total, next: 0, retry: false, kept: 0 }
}

/// The question to ask next: the part and whether it is the retry; `None`
/// when every part is done.
pub fn section_to_ask(l: &SectionLoop) -> (r: Option<(usize, bool)>)
    ensures
        r == (if l.next < l.total {
            Some((l.next, l.retry))
        } else {
            None::<(usize, bool)>
        }),
{
    if l.next < l.total {
        Some((l.next, l.retry))
    } else {
        None
    }
}

/// The loop after a reply: a usable reply is kept and the next part comes;
/// an unusable first reply asks the same part again; an unusable retry
/// drops the part. Every step leaves less work.
pub fn after_reply(l: SectionLoop, usable: bool) -> (r: SectionLoop)
    requires
        loop_wf(l),
        l.next < l.total,
    ensures
        loop_wf(r),
        r.total == l.total,
        usable ==> r.next == l.next + 1 && !r.retry && r.kept == l.kept + 1,
        !usable && !l.retry ==> r.next == l.next && r.retry && r.kept == l.kept,
        !usable && l.retry ==> r.next == l.next + 1 && !r.retry && r.kept == l.kept,
        0 <= work_left(r) < work_left(l),
{
    if usable {
        SectionLoop { total: l.total, next: l.next + 1, retry: false, kept: l.kept + 1 }
    } else if !l.retry {
        SectionLoop { total: l.total, next: l.next, retry: true, kept: l.kept }
    } else {
        SectionLoop { total: l.total, next: l.next + 1, retry: false, kept: l.kept }
    }
}

/// A plan section's reply is kept when it could be normalised and, on the
/// first question, names at least one process; on the retry any normalised
/// reply is kept.
pub open spec fn plan_reply_kept(reply: Option<JsonValue>, retry: bool) -> bool {
    match reply {
        Some(v) => retry || (array_of(field(v, "processes"@)) matches Some(ps) && ps.len() > 0),
        None => false,
    }
}

/// Whether a normalised plan-section reply (`None` when it could not be
/// normalised) is kept (see `plan_reply_kept`).
pub fn plan_reply_usable(reply: &Option<JsonValue>, retry: bool) -> (b: bool)
    ensures
        b == plan_reply_kept(*reply, retry),
{
    match reply {
        Some(v) => retry || match get_array(v, "processes") {
            Some(ps) => ps.len() > 0,
            None => false,
        },
        None => false,
    }
}

/// The outcome once every plan section was asked: an error when no reply
/// was kept.
pub fn plan_sections_outcome(l: &SectionLoop) -> (r: Result<(), String>)
    ensures
        r is Ok <==> l.kept > 0,
        r matches Err(m) ==> m@ == "No valid audit plan sections were generated."@,
{
    if l.kept == 0 {
        Err("No valid audit plan sections were generated.".to_string())
    } else {
        Ok(())
    }
}

} // verus!
