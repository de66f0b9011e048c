//! Decisions of the project screens: finding projects, the creation wizard,
//! and the audit setup suggested from an SOP.
use vstd::prelude::*;
use crate::text::same_chars;
use crate::model::{join_strings, strs};
use crate::seqs::{first_index, first_index_from};
use crate::text::{chars_of, extend_chars, extend_str, has_sub, join, str_eq, string_of, trim, trim_chars};
use crate::unicode::{lower_chars, lower_str, lowercase};

verus! {

/// A project is listed for a search when the search is empty or its name
/// contains the search, both lowercased.
pub open spec fn listed_for(name: Seq<char>, search: Seq<char>) -> bool {
    let q = lowercase(search);
    q.len() == 0 || has_sub(lowercase(name), q)
}

/// Whether a project is listed for the search text.
pub fn project_matches(name: &str, search: &str) -> (b: bool)
    ensures
        b == listed_for(name@, search@),
{
    let q = lower_str(search);
    if q.len() == 0 {
        return true;
    }
    let n = lower_str(name);
    crate::text::contains_chars(n.as_slice(), q.as_slice())
}

/// The first wizard page is complete: a name and a client that are not
/// blank, and both ends of the audit period.
pub open spec fn details_complete(name: Seq<char>, client: Seq<char>, start: Seq<char>, end: Seq<char>) -> bool {
    trim(name).len() > 0 && trim(client).len() > 0 && start.len() > 0 && end.len() > 0
}

/// Whether the project details may be confirmed.
pub fn wizard_details_valid(name: &str, client: &str, start: &str, end: &str) -> (b: bool)
    ensures
        b == details_complete(name@, client@, start@, end@),
{
    trim_chars(chars_of(name).as_slice()).len() > 0 && trim_chars(chars_of(client).as_slice()).len() > 0
        && chars_of(start).len() > 0 && chars_of(end).len() > 0
}

/// The line under the chosen standards.
pub fn standards_summary(stds: &[String]) -> (s: String)
    ensures
        s@ == (if stds@.len() == 0 {
            "Select at least one standard"@
        } else {
            join(strs(stds@), ", "@) + " selected"@
        }),
{
    if stds.len() == 0 {
        string_of(chars_of("Select at least one standard").as_slice())
    } else {
        let mut s = join_strings(stds, ", ");
        extend_str(&mut s, " selected");
        string_of(s.as_slice())
    }
}

/// Picks a standard that was not chosen, or drops one that was.
pub fn toggle_choice(chosen: &mut Vec<String>, name: String)
    ensures
        strs(old(chosen)@).contains(name@) ==> strs(final(chosen)@) == strs(old(chosen)@).filter(|x: Seq<char>| x != name@),
        !strs(old(chosen)@).contains(name@) ==> strs(final(chosen)@) == strs(old(chosen)@).push(name@),
{
    let mut present = false;
    let mut i: usize = 0;
    while i < chosen.len()
        invariant
            i <= chosen.len(),
            present == exists|k: int| 0 <= k < i && strs(chosen@)[k] == name@,
        decreases chosen.len() - i,
    {
        assert(strs(chosen@)[i as int] == chosen@[i as int]@);
        if str_eq(chosen[i].as_str(), name.as_str()) {
            present = true;
        }
        i = i + 1;
    }
    assert(present == strs(chosen@).contains(name@));
    crate::pbc::set_approved(chosen, name, !present);
}

proof fn lemma_filter_keeps_all(s: Seq<Seq<char>>, name: Seq<char>)
    requires
        !s.contains(name),
    ensures
        s.filter(|x: Seq<char>| x != name) == s,
    decreases s.len(),
{
    let p = |x: Seq<char>| x != name;
    if s.len() > 0 {
        assert(!s.drop_last().contains(name)) by {
            if s.drop_last().contains(name) {
                let k = choose|k: int| 0 <= k < s.drop_last().len() && s.drop_last()[k] == name;
                assert(s[k] == name);
            }
        }
        lemma_filter_keeps_all(s.drop_last(), name);
        s.drop_last().lemma_filter_push(s.last(), p);
        assert(s.drop_last().push(s.last()) =~= s);
        assert(s.last() == s[s.len() - 1]);
    } else {
        assert(s.filter(p) =~= s);
    }
}

/// Choosing a standard that was not chosen and then dropping it again
/// leaves the choices as they were.
pub proof fn law_toggle_twice(chosen: Seq<Seq<char>>, name: Seq<char>)
    requires
        !chosen.contains(name),
    ensures
        chosen.push(name).contains(name),
        chosen.push(name).filter(|x: Seq<char>| x != name) == chosen,
{
    assert(chosen.push(name)[chosen.len() as int] == name);
    chosen.lemma_filter_push(name, |x: Seq<char>| x != name);
    lemma_filter_keeps_all(chosen, name);
}

// ───────────────────────────── the setup suggested from an SOP ─────────────────────────────

/// The standard has the name `s`, compared in lowercase.
pub open spec fn named_like(s: Seq<char>) -> spec_fn((Seq<char>, bool)) -> bool {
    |e: (Seq<char>, bool)| lowercase(e.0) == lowercase(s)
}

/// Adds a suggested standard: a new one is added chosen; an existing one
/// (the first of the same name in lowercase) becomes chosen.
pub open spec fn suggest_standard(cur: Seq<(Seq<char>, bool)>, s: Seq<char>) -> Seq<(Seq<char>, bool)> {
    match first_index(cur, named_like(s)) {
        None => cur.push((s, true)),
        Some(k) => cur.update(k, (cur[k].0, true)),
    }
}

pub open spec fn suggest_standards(cur: Seq<(Seq<char>, bool)>, ss: Seq<Seq<char>>) -> Seq<(Seq<char>, bool)>
    decreases ss.len(),
{
    if ss.len() == 0 {
        cur
    } else {
        suggest_standard(suggest_standards(cur, ss.drop_last()), ss.last())
    }
}

pub open spec fn choice_views(v: Seq<(String, bool)>) -> Seq<(Seq<char>, bool)> {
    Seq::new(v.len(), |i: int| (v[i].0@, v[i].1))
}

/// Merges the standards suggested for an SOP into the current choices,
/// keeping what was chosen and choosing what was suggested.
pub fn merge_suggested_standards(current: &mut Vec<(String, bool)>, suggested: &[String])
    ensures
        choice_views(final(current)@) == suggest_standards(choice_views(old(current)@), strs(suggested@)),
{
    let ghost c0 = choice_views(current@);
    let mut i: usize = 0;
    assert(strs(suggested@).take(0) =~= Seq::<Seq<char>>::empty());
    while i < suggested.len()
        invariant
            i <= suggested.len(),
            c0 == choice_views(old(current)@),
            choice_views(current@) == suggest_standards(c0, strs(suggested@).take(i as int)),
        decreases suggested.len() - i,
    {
        let s = &suggested[i];
        let sl = lower_str(s.as_str());
        let ghost cv = choice_views(current@);
        let ghost p = named_like(s@);
        let mut k: usize = 0;
        let mut found: Option<usize> = None;
        while k < current.len() && found.is_none()
            invariant
                k <= current.len(),
                cv == choice_views(current@),
                sl@ == lowercase(s@),
                p == named_like(s@),
                found matches Some(f) ==> f < current.len() && first_index(cv, p) == Some(f as int),
                found is None ==> first_index(cv, p) == first_index_from(cv, p, k as int),
            decreases current.len() - k,
        {
            let l = lower_str(current[k].0.as_str());
            if same_chars(l.as_slice(), sl.as_slice()) {
                assert(p(cv[k as int]));
                found = Some(k);
            }
            k = k + 1;
        }
        proof {
            assert(strs(suggested@).take(i + 1).drop_last() =~= strs(suggested@).take(i as int));
            assert(strs(suggested@).take(i + 1).last() == s@);
        }
        match found {
            None => {
                current.push((s.clone(), true));
                assert(choice_views(current@) =~= cv.push((s@, true)));
            },
            Some(f) => {
                let e = current.remove(f);
                let ghost name = e.0@;
                current.insert(f, (e.0, true));
                assert(choice_views(current@) =~= cv.update(f as int, (cv[f as int].0, true)));
            },
        }
        i = i + 1;
    }
    assert(strs(suggested@).take(suggested.len() as int) =~= strs(suggested@));
}

/// After merging, every suggested standard is chosen (under some spelling
/// of its name that agrees in lowercase).
pub proof fn law_suggested_are_chosen(cur: Seq<(Seq<char>, bool)>, ss: Seq<Seq<char>>)
    ensures
        forall|i: int| 0 <= i < ss.len() ==> exists|k: int|
            0 <= k < suggest_standards(cur, ss).len() && lowercase(suggest_standards(cur, ss)[k].0) == lowercase(
                #[trigger] ss[i],
            ) && suggest_standards(cur, ss)[k].1,
    decreases ss.len(),
{
    if ss.len() > 0 {
        let prev = suggest_standards(cur, ss.drop_last());
        law_suggested_are_chosen(cur, ss.drop_last());
        let s = ss.last();
        let r = suggest_standards(cur, ss);
        crate::seqs::lemma_first_index_from(prev, named_like(s), 0);
        assert forall|i: int| 0 <= i < ss.len() implies exists|k: int|
            0 <= k < r.len() && lowercase(r[k].0) == lowercase(#[trigger] ss[i]) && r[k].1 by {
            if i == ss.len() - 1 {
                match first_index(prev, named_like(s)) {
                    None => {
                        assert(r[prev.len() as int] == (s, true));
                    },
                    Some(f) => {
                        assert(named_like(s)(prev[f]));
                        assert(r[f] == (prev[f].0, true));
                    },
                }
            } else {
                assert(ss.drop_last()[i] == ss[i]);
                let k = choose|k: int|
                    0 <= k < prev.len() && lowercase(prev[k].0) == lowercase(ss.drop_last()[i]) && prev[k].1;
                match first_index(prev, named_like(s)) {
                    None => {
                        assert(r[k] == prev[k]);
                    },
                    Some(f) => {
                        if k == f {
                            assert(r[k] == (prev[k].0, true));
                        } else {
                            assert(r[k] == prev[k]);
                        }
                    },
                }
            }
        }
    }
}


// ───────────────────────────── the step trail of a project ─────────────────────────────

/// The classes of crumb `crumb` (1 to 5) of the step trail when the project
/// is at step `current`: the number's class and the label's class.
pub open spec fn crumb_classes(current: u8, crumb: u8) -> (Seq<char>, Seq<char>) {
    let done = "audit-step-num done"@;
    let active = "audit-step-num active"@;
    let pending = "audit-step-num pending"@;
    let lit = "audit-step-label active"@;
    let muted = "audit-step-label muted"@;
    if crumb == 1 {
        (if current != 1 { done } else { active }, if current == 1 { lit } else { muted })
    } else if crumb == 2 {
        (if current == 2 { active } else { pending }, if current == 2 { lit } else { muted })
    } else if crumb == 3 {
        (
            if current == 4 || current == 5 { done } else if current == 3 { active } else { pending },
            if 3 <= current <= 5 { lit } else { muted },
        )
    } else if crumb == 4 {
        (
            if current == 5 { done } else if current == 4 { active } else { pending },
            if current == 4 || current == 5 { lit } else { muted },
        )
    } else {
        (pending, muted)
    }
}

/// The step a click on crumb `crumb` leads to, if the crumb can be clicked.
pub open spec fn crumb_target(current: u8, crumb: u8) -> Option<u8> {
    if crumb == 1 {
        Some(1)
    } else if crumb == 3 && 3 <= current <= 5 {
        Some(3)
    } else if crumb == 4 && current == 5 {
        Some(4)
    } else {
        None
    }
}

/// The number class and label class of a crumb of the step trail.
pub fn crumb_class(current: u8, crumb: u8) -> (r: (&'static str, &'static str))
    ensures
        (r.0@, r.1@) == crumb_classes(current, crumb),
{
    let done = "audit-step-num done";
    let active = "audit-step-num active";
    let pending = "audit-step-num pending";
    let lit = "audit-step-label active";
    let muted = "audit-step-label muted";
    if crumb == 1 {
        (if current != 1 { done } else { active }, if current == 1 { lit } else { muted })
    } else if crumb == 2 {
        (if current == 2 { active } else { pending }, if current == 2 { lit } else { muted })
    } else if crumb == 3 {
        (
            if current == 4 || current == 5 { done } else if current == 3 { active } else { pending },
            if 3 <= current && current <= 5 { lit } else { muted },
        )
    } else if crumb == 4 {
        (
            if current == 5 { done } else if current == 4 { active } else { pending },
            if current == 4 || current == 5 { lit } else { muted },
        )
    } else {
        (pending, muted)
    }
}

/// Where a click on a crumb of the step trail leads (`None` when the crumb
/// does not react).
pub fn crumb_click(current: u8, crumb: u8) -> (r: Option<u8>)
    ensures
        r == crumb_target(current, crumb),
{
    if crumb == 1 {
        Some(1)
    } else if crumb == 3 && 3 <= current && current <= 5 {
        Some(3)
    } else if crumb == 4 && current == 5 {
        Some(4)
    } else {
        None
    }
}

/// The class of step `step` of the creation wizard at step `current`.
pub fn wizard_step_class(current: u8, step: u8) -> (s: &'static str)
    ensures
        s@ == (if current == step {
            "wiz-step wiz-step--active"@
        } else if current > step {
            "wiz-step wiz-step--done"@
        } else {
            "wiz-step"@
        }),
{
    if current == step {
        "wiz-step wiz-step--active"
    } else if current > step {
        "wiz-step wiz-step--done"
    } else {
        "wiz-step"
    }
}

/// The trail only leads back: from any step of the workflow, a click on a
/// crumb goes to that step or an earlier one.
pub proof fn law_trail_leads_back(current: u8, crumb: u8)
    requires
        1 <= current <= 5,
    ensures
        crumb_target(current, crumb) matches Some(t) ==> t <= current,
{
}

} // verus!
