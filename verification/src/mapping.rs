//! Mapping the columns of an uploaded file to the fields the PBC requests
//! ask for: checking the model's proposals, and the name-matching fallback.
use vstd::prelude::*;
use crate::text::same_chars;
use crate::json::{array_of, field, get_array, get_str, str_of, JsonValue};
use crate::model::{pair_strs, strs, PbcGroup, PbcItem};
use crate::seqs::{first_index, first_index_from, lemma_flatten_empty, lemma_flatten_step};
use crate::text::{chars_of, seqs_of, str_eq, string_of, trim, trim_chars};
use crate::unicode::{lower_chars, lowercase};

verus! {

/// Every field of every request, group by group.
pub open spec fn all_fields(groups: Seq<PbcGroup>) -> Seq<Seq<char>> {
    groups.map_values(
        |g: PbcGroup| g.items@.map_values(|i: PbcItem| strs(i.fields@)).flatten(),
    ).flatten()
}

/// Collects every field of every request, in order.
pub fn collect_fields(groups: &[PbcGroup]) -> (r: Vec<String>)
    ensures
        strs(r@) == all_fields(groups@),
{
    let ghost fi = |i: PbcItem| strs(i.fields@);
    let ghost fg = |g: PbcGroup| g.items@.map_values(fi).flatten();
    let mut r: Vec<String> = Vec::new();
    proof {
        lemma_flatten_empty(groups@, fg);
    }
    let mut gi: usize = 0;
    while gi < groups.len()
        invariant
            gi <= groups.len(),
            fi == (|i: PbcItem| strs(i.fields@)),
            fg == (|g: PbcGroup| g.items@.map_values(fi).flatten()),
            strs(r@) == groups@.take(gi as int).map_values(fg).flatten(),
        decreases groups.len() - gi,
    {
        let items = &groups[gi].items;
        let ghost base = strs(r@);
        proof {
            lemma_flatten_empty(items@, fi);
        }
        let mut ii: usize = 0;
        while ii < items.len()
            invariant
                ii <= items.len(),
                fi == (|i: PbcItem| strs(i.fields@)),
                strs(r@) == base + items@.take(ii as int).map_values(fi).flatten(),
            decreases items.len() - ii,
        {
            let fs = &items[ii].fields;
            let ghost b2 = strs(r@);
            let mut k: usize = 0;
            while k < fs.len()
                invariant
                    k <= fs.len(),
                    strs(r@) == b2 + strs(fs@).take(k as int),
                decreases fs.len() - k,
            {
                let ghost b3 = strs(r@);
                r.push(fs[k].clone());
                assert(strs(r@) =~= b3.push(fs@[k as int]@));
                assert(b2 + strs(fs@).take(k + 1) =~= (b2 + strs(fs@).take(k as int)).push(fs@[k as int]@));
                k = k + 1;
            }
            assert(strs(fs@).take(fs.len() as int) =~= strs(fs@));
            proof {
                lemma_flatten_step(items@, fi, ii as int);
                assert(base + items@.take(ii + 1).map_values(fi).flatten() =~= base + items@.take(ii as int).map_values(fi).flatten() + fi(items@[ii as int]));
            }
            ii = ii + 1;
        }
        assert(items@.take(items.len() as int) =~= items@);
        proof {
            lemma_flatten_step(groups@, fg, gi as int);
        }
        gi = gi + 1;
    }
    assert(groups@.take(groups.len() as int) =~= groups@);
    r
}

// ───────────────────────────── name matching ─────────────────────────────

/// A name compared loosely: lowercased, without `_`, spaces and `-`.
pub open spec fn loose_name(s: Seq<char>) -> Seq<char> {
    lowercase(s).filter(|c: char| c != '_' && c != ' ' && c != '-')
}

fn loose_name_exec(s: &str) -> (r: Vec<char>)
    ensures
        r@ == loose_name(s@),
{
    let l = lower_chars(chars_of(s).as_slice());
    let ghost f = |c: char| c != '_' && c != ' ' && c != '-';
    let mut r: Vec<char> = Vec::new();
    let mut i: usize = 0;
    assert(l@.take(0).filter(f) =~= Seq::<char>::empty());
    while i < l.len()
        invariant
            i <= l.len(),
            f == (|c: char| c != '_' && c != ' ' && c != '-'),
            r@ == l@.take(i as int).filter(f),
        decreases l.len() - i,
    {
        let c = l[i];
        proof {
            assert(l@.take(i + 1).drop_last() =~= l@.take(i as int));
            assert(l@.take(i + 1).last() == c);
            l@.take(i as int).lemma_filter_push(c, f);
            assert(l@.take(i + 1) =~= l@.take(i as int).push(c));
        }
        if c != '_' && c != ' ' && c != '-' {
            r.push(c);
        }
        i = i + 1;
    }
    assert(l@.take(l.len() as int) =~= l@);
    r
}

/// The field each column maps to by loose name, or the empty string.
pub open spec fn name_match(col: Seq<char>, fields: Seq<Seq<char>>) -> Seq<char> {
    match first_index(fields, |f: Seq<char>| loose_name(f) == loose_name(col)) {
        Some(k) => fields[k],
        None => Seq::empty(),
    }
}



/// Maps each column to the first field with the same loose name (see
/// `loose_name`), or to the empty string; the fallback when the model gives
/// no mapping.
pub fn normalize_map(columns: &[String], all_fields: &[String]) -> (r: Vec<(String, String)>)
    ensures
        pair_strs(r@) == strs(columns@).map_values(|c: Seq<char>| (c, name_match(c, strs(all_fields@)))),
{
    let ghost fs = strs(all_fields@);
    let ghost f = |c: Seq<char>| (c, name_match(c, fs));
    let mut keys: Vec<Vec<char>> = Vec::new();
    let mut q: usize = 0;
    while q < all_fields.len()
        invariant
            q <= all_fields.len(),
            keys.len() == q,
            forall|m: int| 0 <= m < q ==> keys@[m]@ == loose_name(all_fields@[m]@),
        decreases all_fields.len() - q,
    {
        keys.push(loose_name_exec(all_fields[q].as_str()));
        q = q + 1;
    }
    let mut r: Vec<(String, String)> = Vec::new();
    let mut i: usize = 0;
    while i < columns.len()
        invariant
            i <= columns.len(),
            fs == strs(all_fields@),
            f == (|c: Seq<char>| (c, name_match(c, fs))),
            keys.len() == all_fields.len(),
            forall|m: int| 0 <= m < all_fields.len() ==> keys@[m]@ == loose_name(all_fields@[m]@),
            pair_strs(r@) == strs(columns@).take(i as int).map_values(f),
        decreases columns.len() - i,
    {
        let key = loose_name_exec(columns[i].as_str());
        let ghost p = |x: Seq<char>| loose_name(x) == loose_name(columns@[i as int]@);
        let mut k: usize = 0;
        let mut target: Option<usize> = None;
        while k < all_fields.len() && target.is_none()
            invariant
                k <= all_fields.len(),
                keys.len() == all_fields.len(),
                forall|m: int| 0 <= m < all_fields.len() ==> keys@[m]@ == loose_name(all_fields@[m]@),
                key@ == loose_name(columns@[i as int]@),
                p == (|x: Seq<char>| loose_name(x) == loose_name(columns@[i as int]@)),
                fs == strs(all_fields@),
                target matches Some(t) ==> t < all_fields.len() && first_index(fs, p) == Some(t as int),
                target is None ==> first_index(fs, p) == first_index_from(fs, p, k as int),
            decreases all_fields.len() - k,
        {
            if same_chars(keys[k].as_slice(), key.as_slice()) {
                assert(p(fs[k as int]));
                target = Some(k);
            }
            k = k + 1;
        }
        let t = match target {
            Some(t) => all_fields[t].clone(),
            None => String::new(),
        };
        let ghost prev = pair_strs(r@);
        r.push((columns[i].clone(), t));
        proof {
            assert(f(strs(columns@)[i as int]) == (columns@[i as int]@, name_match(columns@[i as int]@, fs)));
            assert(pair_strs(r@) =~= prev.push(f(strs(columns@)[i as int])));
            assert(strs(columns@).take(i + 1).map_values(f) =~= strs(columns@).take(i as int).map_values(f).push(f(strs(columns@)[i as int])));
        }
        i = i + 1;
    }
    assert(strs(columns@).take(columns.len() as int) =~= strs(columns@));
    r
}

// ───────────────────────────── the model's proposals ─────────────────────────────

/// One proposed mapping checked against the chunk of columns it was asked
/// about, the requested fields and the targets already taken: a proposal
/// without a string source or with a source outside the chunk is dropped; a
/// target that is no requested field or is already taken becomes empty; a
/// kept target is taken.
pub open spec fn accept_step(
    chunk: Seq<Seq<char>>,
    fields: Seq<Seq<char>>,
    st: (Seq<Seq<char>>, Seq<(Seq<char>, Seq<char>)>),
    m: JsonValue,
) -> (Seq<Seq<char>>, Seq<(Seq<char>, Seq<char>)>) {
    match str_of(field(m, "source"@)) {
        None => st,
        Some(src) => if !chunk.contains(src) {
            st
        } else {
            let t0 = match str_of(field(m, "target"@)) {
                Some(t) => t,
                None => Seq::empty(),
            };
            let t = if t0.len() == 0 || !fields.contains(t0) || st.0.contains(t0) {
                Seq::empty()
            } else {
                t0
            };
            (if t.len() > 0 {
                st.0.push(t)
            } else {
                st.0
            }, st.1.push((src, t)))
        },
    }
}

pub open spec fn accept_all(
    chunk: Seq<Seq<char>>,
    fields: Seq<Seq<char>>,
    st: (Seq<Seq<char>>, Seq<(Seq<char>, Seq<char>)>),
    ms: Seq<JsonValue>,
) -> (Seq<Seq<char>>, Seq<(Seq<char>, Seq<char>)>)
    decreases ms.len(),
{
    if ms.len() == 0 {
        st
    } else {
        accept_step(chunk, fields, accept_all(chunk, fields, st, ms.drop_last()), ms.last())
    }
}

/// The state after a reply: its `mappings` checked in order (nothing when
/// the reply has none).
pub open spec fn accept_reply(
    chunk: Seq<Seq<char>>,
    fields: Seq<Seq<char>>,
    st: (Seq<Seq<char>>, Seq<(Seq<char>, Seq<char>)>),
    reply: JsonValue,
) -> (Seq<Seq<char>>, Seq<(Seq<char>, Seq<char>)>) {
    match array_of(field(reply, "mappings"@)) {
        Some(ms) => accept_all(chunk, fields, st, ms),
        None => st,
    }
}

fn contains_str(v: &Vec<String>, s: &[char]) -> (b: bool)
    ensures
        b == strs(v@).contains(s@),
{
    let mut i: usize = 0;
    while i < v.len()
        invariant
            i <= v.len(),
            forall|k: int| 0 <= k < i ==> strs(v@)[k] != s@,
        decreases v.len() - i,
    {
        let c = chars_of(v[i].as_str());
        if same_chars(c.as_slice(), s) {
            assert(strs(v@)[i as int] == s@);
            return true;
        }
        i = i + 1;
    }
    false
}

/// Checks the mappings of one reply for a chunk of columns (see
/// `accept_step`), adding the kept ones to `mappings` and their targets to
/// `taken`.
pub fn accept_mappings(
    chunk: &Vec<String>,
    fields: &Vec<String>,
    taken: &mut Vec<String>,
    mappings: &mut Vec<(String, String)>,
    reply: &JsonValue,
)
    ensures
        (strs(final(taken)@), pair_strs(final(mappings)@)) == accept_reply(
            strs(chunk@),
            strs(fields@),
            (strs(old(taken)@), pair_strs(old(mappings)@)),
            *reply,
        ),
{
    let ms = match get_array(reply, "mappings") {
        Some(a) => a,
        None => return,
    };
    let ghost st0 = (strs(taken@), pair_strs(mappings@));
    let mut i: usize = 0;
    assert(ms@.take(0) =~= Seq::<JsonValue>::empty());
    while i < ms.len()
        invariant
            i <= ms.len(),
            st0 == (strs(old(taken)@), pair_strs(old(mappings)@)),
            (strs(taken@), pair_strs(mappings@)) == accept_all(strs(chunk@), strs(fields@), st0, ms@.take(i as int)),
        decreases ms.len() - i,
    {
        proof {
            assert(ms@.take(i + 1).drop_last() =~= ms@.take(i as int));
            assert(ms@.take(i + 1).last() == ms@[i as int]);
        }
        match get_str(&ms[i], "source") {
            None => {},
            Some(src) => {
                let sv = chars_of(src.as_str());
                if contains_str(chunk, sv.as_slice()) {
                    let t0 = match get_str(&ms[i], "target") {
                        Some(t) => t.clone(),
                        None => String::new(),
                    };
                    let tv = chars_of(t0.as_str());
                    let keep = tv.len() > 0 && contains_str(fields, tv.as_slice()) && !contains_str(taken, tv.as_slice());
                    let t = if keep { t0 } else { String::new() };
                    let ghost pt = strs(taken@);
                    let ghost pm = pair_strs(mappings@);
                    if keep {
                        taken.push(t.clone());
                        assert(strs(taken@) =~= pt.push(t@));
                    }
                    mappings.push((src.clone(), t));
                    assert(pair_strs(mappings@) =~= pm.push((src@, mappings@.last().1@)));
                }
            },
        }
        i = i + 1;
    }
    assert(ms@.take(ms.len() as int) =~= ms@);
}

/// Every column of a chunk unmapped (when the model could not be asked or
/// its reply could not be read).
pub fn unmapped(chunk: &Vec<String>, mappings: &mut Vec<(String, String)>)
    ensures
        pair_strs(final(mappings)@) == pair_strs(old(mappings)@) + strs(chunk@).map_values(
            |c: Seq<char>| (c, Seq::<char>::empty()),
        ),
{
    let ghost m0 = pair_strs(mappings@);
    let ghost f = |c: Seq<char>| (c, Seq::<char>::empty());
    let mut i: usize = 0;
    while i < chunk.len()
        invariant
            i <= chunk.len(),
            f == (|c: Seq<char>| (c, Seq::<char>::empty())),
            m0 == pair_strs(old(mappings)@),
            pair_strs(mappings@) == m0 + strs(chunk@).take(i as int).map_values(f),
        decreases chunk.len() - i,
    {
        let ghost pm = pair_strs(mappings@);
        mappings.push((chunk[i].clone(), String::new()));
        assert(pair_strs(mappings@) =~= pm.push(f(strs(chunk@)[i as int])));
        assert(m0 + strs(chunk@).take(i + 1).map_values(f) =~= (m0 + strs(chunk@).take(i as int).map_values(f)).push(f(strs(chunk@)[i as int])));
        i = i + 1;
    }
    assert(strs(chunk@).take(chunk.len() as int) =~= strs(chunk@));
}

/// The mappings with repeated sources dropped (the first one stays).
pub open spec fn first_per_source(ms: Seq<(Seq<char>, Seq<char>)>) -> Seq<(Seq<char>, Seq<char>)>
    decreases ms.len(),
{
    if ms.len() == 0 {
        Seq::empty()
    } else {
        let p = first_per_source(ms.drop_last());
        if ms.drop_last().map_values(|m: (Seq<char>, Seq<char>)| m.0).contains(ms.last().0) {
            p
        } else {
            p.push(ms.last())
        }
    }
}

/// Drops the mappings whose source already has one (the first one stays).
pub fn dedup_sources(ms: &Vec<(String, String)>) -> (r: Vec<(String, String)>)
    ensures
        pair_strs(r@) == first_per_source(pair_strs(ms@)),
{
    let ghost mv = pair_strs(ms@);
    let ghost src = |m: (Seq<char>, Seq<char>)| m.0;
    let mut r: Vec<(String, String)> = Vec::new();
    let mut i: usize = 0;
    assert(mv.take(0) =~= Seq::<(Seq<char>, Seq<char>)>::empty());
    while i < ms.len()
        invariant
            i <= ms.len(),
            mv == pair_strs(ms@),
            src == (|m: (Seq<char>, Seq<char>)| m.0),
            pair_strs(r@) == first_per_source(mv.take(i as int)),
        decreases ms.len() - i,
    {
        let s = chars_of(ms[i].0.as_str());
        let mut seen = false;
        let mut k: usize = 0;
        while k < i
            invariant
                k <= i,
                i < ms.len(),
                mv == pair_strs(ms@),
                seen == exists|q: int| 0 <= q < k && mv[q].0 == s@,
            decreases i - k,
        {
            let c = chars_of(ms[k].0.as_str());
            assert(mv[k as int].0 == ms@[k as int].0@);
            if same_chars(c.as_slice(), s.as_slice()) {
                seen = true;
            }
            k = k + 1;
        }
        proof {
            let pre = mv.take(i + 1).drop_last();
            assert(pre =~= mv.take(i as int));
            assert(mv.take(i + 1).last() == mv[i as int]);
            if seen {
                let q = choose|q: int| 0 <= q < i && mv[q].0 == s@;
                assert(pre.map_values(src)[q] == s@);
            } else {
                assert forall|q: int| 0 <= q < pre.len() implies pre.map_values(src)[q] != s@ by {}
            }
        }
        if !seen {
            let ghost pr = pair_strs(r@);
            r.push((ms[i].0.clone(), ms[i].1.clone()));
            assert(pair_strs(r@) =~= pr.push(mv[i as int]));
        }
        i = i + 1;
    }
    assert(mv.take(ms.len() as int) =~= mv);
    r
}

// ───────────────────────────── what the checks guarantee ─────────────────────────────

/// The non-empty targets of the mappings, in order.
pub open spec fn kept_targets(ms: Seq<(Seq<char>, Seq<char>)>) -> Seq<Seq<char>>
    decreases ms.len(),
{
    if ms.len() == 0 {
        Seq::empty()
    } else {
        let p = kept_targets(ms.drop_last());
        if ms.last().1.len() > 0 {
            p.push(ms.last().1)
        } else {
            p
        }
    }
}

/// The checking state is sound: the taken targets are exactly the non-empty
/// targets of the mappings, none twice, each a requested field.
pub open spec fn mapping_state_ok(fields: Seq<Seq<char>>, st: (Seq<Seq<char>>, Seq<(Seq<char>, Seq<char>)>)) -> bool {
    &&& st.0 == kept_targets(st.1)
    &&& st.0.no_duplicates()
    &&& forall|i: int| 0 <= i < st.0.len() ==> fields.contains(#[trigger] st.0[i])
}

proof fn lemma_accept_step_ok(
    chunk: Seq<Seq<char>>,
    fields: Seq<Seq<char>>,
    st: (Seq<Seq<char>>, Seq<(Seq<char>, Seq<char>)>),
    m: JsonValue,
)
    requires
        mapping_state_ok(fields, st),
    ensures
        mapping_state_ok(fields, accept_step(chunk, fields, st, m)),
{
    let r = accept_step(chunk, fields, st, m);
    if r != st {
        assert(r.1.drop_last() =~= st.1);
    }
}

/// Checking replies keeps every target for one column at most: starting from
/// a sound state (such as no mappings at all), the taken targets stay the
/// distinct, requested, non-empty targets of the mappings.
pub proof fn law_targets_taken_once(
    chunk: Seq<Seq<char>>,
    fields: Seq<Seq<char>>,
    st: (Seq<Seq<char>>, Seq<(Seq<char>, Seq<char>)>),
    reply: JsonValue,
)
    requires
        mapping_state_ok(fields, st),
    ensures
        mapping_state_ok(fields, accept_reply(chunk, fields, st, reply)),
{
    match array_of(field(reply, "mappings"@)) {
        Some(ms) => lemma_accept_all_ok(chunk, fields, st, ms),
        None => {},
    }
}

proof fn lemma_accept_all_ok(
    chunk: Seq<Seq<char>>,
    fields: Seq<Seq<char>>,
    st: (Seq<Seq<char>>, Seq<(Seq<char>, Seq<char>)>),
    ms: Seq<JsonValue>,
)
    requires
        mapping_state_ok(fields, st),
    ensures
        mapping_state_ok(fields, accept_all(chunk, fields, st, ms)),
    decreases ms.len(),
{
    if ms.len() > 0 {
        lemma_accept_all_ok(chunk, fields, st, ms.drop_last());
        lemma_accept_step_ok(chunk, fields, accept_all(chunk, fields, st, ms.drop_last()), ms.last());
    }
}

proof fn lemma_first_per_source_from(ms: Seq<(Seq<char>, Seq<char>)>)
    ensures
        forall|k: int|
            0 <= k < first_per_source(ms).len() ==> ms.map_values(|m: (Seq<char>, Seq<char>)| m.0).contains(
                #[trigger] first_per_source(ms)[k].0,
            ),
    decreases ms.len(),
{
    if ms.len() > 0 {
        let p = first_per_source(ms.drop_last());
        lemma_first_per_source_from(ms.drop_last());
        let src = |m: (Seq<char>, Seq<char>)| m.0;
        assert forall|k: int| 0 <= k < first_per_source(ms).len() implies ms.map_values(src).contains(
            #[trigger] first_per_source(ms)[k].0,
        ) by {
            if k < p.len() {
                assert(first_per_source(ms)[k] == p[k]);
                let q = choose|q: int| 0 <= q < ms.drop_last().len() && ms.drop_last().map_values(src)[q] == p[k].0;
                assert(ms.map_values(src)[q] == ms.drop_last()[q].0);
            } else {
                assert(ms.map_values(src)[ms.len() - 1] == ms.last().0);
            }
        }
    }
}

/// After dropping repeated sources, each source column has one mapping.
pub proof fn law_sources_once(ms: Seq<(Seq<char>, Seq<char>)>)
    ensures
        forall|i: int, j: int|
            0 <= i < j < first_per_source(ms).len() ==> (#[trigger] first_per_source(ms)[i]).0 != (
            #[trigger] first_per_source(ms)[j]).0,
    decreases ms.len(),
{
    if ms.len() > 0 {
        let p = first_per_source(ms.drop_last());
        law_sources_once(ms.drop_last());
        lemma_first_per_source_from(ms.drop_last());
        let src = |m: (Seq<char>, Seq<char>)| m.0;
        let r = first_per_source(ms);
        assert forall|i: int, j: int| 0 <= i < j < r.len() implies (#[trigger] r[i]).0 != (#[trigger] r[j]).0 by {
            if j < p.len() {
                assert(r[i] == p[i] && r[j] == p[j]);
            } else {
                assert(r[i] == p[i]);
                assert(r[j] == ms.last());
                assert(!ms.drop_last().map_values(src).contains(ms.last().0));
                assert(ms.drop_last().map_values(src).contains(p[i].0));
            }
        }
    }
}

// ───────────────────────────── the mapping request ─────────────────────────────

/// Sorts and deduplicates a list of names (`sort` then `dedup`).
pub fn sorted_names(names: &Vec<String>) -> (r: Vec<String>)
    ensures
        strs(r@) == crate::order::sort_dedup(strs(names@)),
{
    let mut acc: Vec<Vec<char>> = Vec::new();
    let mut i: usize = 0;
    assert(seqs_of(acc@).to_set() =~= strs(names@).take(0).to_set());
    while i < names.len()
        invariant
            i <= names.len(),
            crate::order::strictly_sorted(seqs_of(acc@)),
            seqs_of(acc@).to_set() == strs(names@).take(i as int).to_set(),
        decreases names.len() - i,
    {
        let c = chars_of(names[i].as_str());
        let ghost prev = strs(names@).take(i as int);
        crate::order::insert_sorted(&mut acc, c);
        proof {
            crate::order::lemma_push_to_set(prev, names@[i as int]@);
            assert(strs(names@).take(i + 1) =~= prev.push(names@[i as int]@));
        }
        i = i + 1;
    }
    assert(strs(names@).take(names.len() as int) =~= strs(names@));
    proof {
        crate::order::lemma_sort_dedup_is(seqs_of(acc@), strs(names@));
    }
    let r = crate::repair::strings_of(&acc);
    r
}

/// `n. name`: a column numbered from 1.
pub open spec fn numbered(n: nat, name: Seq<char>) -> Seq<char> {
    crate::text::dec(n) + ". "@ + name
}

/// Each column numbered from 1.
pub open spec fn numbered_list(cs: Seq<Seq<char>>) -> Seq<Seq<char>> {
    Seq::new(cs.len(), |j: int| numbered((j + 1) as nat, cs[j]))
}

/// The columns of a request, each numbered from 1.
pub fn numbered_columns(chunk: &Vec<String>) -> (r: Vec<String>)
    requires
        chunk.len() < usize::MAX,
    ensures
        strs(r@) == numbered_list(strs(chunk@)),
        r@.len() == chunk@.len(),
        forall|j: int| 0 <= j < chunk@.len() ==> (#[trigger] r@[j])@ == numbered((j + 1) as nat, chunk@[j]@),
{
    let mut r: Vec<String> = Vec::new();
    let mut j: usize = 0;
    while j < chunk.len()
        invariant
            j <= chunk.len(),
            chunk.len() < usize::MAX,
            r@.len() == j,
            forall|k: int| 0 <= k < j ==> (#[trigger] r@[k])@ == numbered((k + 1) as nat, chunk@[k]@),
        decreases chunk.len() - j,
    {
        let mut t = crate::text::fmt_usize(j + 1);
        crate::text::extend_str(&mut t, ". ");
        crate::text::extend_str(&mut t, chunk[j].as_str());
        r.push(string_of(t.as_slice()));
        j = j + 1;
    }
    assert(strs(r@) =~= numbered_list(strs(chunk@)));
    r
}

/// The mapping request for one chunk of columns, from its parts already
/// written as JSON: the allowed fields, the data requests, the targets
/// already taken and the numbered columns.
pub open spec fn mapping_prompt_text(
    base: Seq<char>,
    allowed_json: Seq<char>,
    pbc_json: Seq<char>,
    taken_json: Seq<char>,
    chunk_json: Seq<char>,
    n: nat,
) -> Seq<char> {
    base + "ALLOWED FIELDS:\n"@ + allowed_json + "\n\nAUDIT DATA REQUESTS (context):\n"@ + pbc_json
        + "\n\nALREADY ASSIGNED (do NOT use these targets \u{2014} they are taken):\n"@ + taken_json
        + "\n\nSOURCE COLUMNS \u{2014} output EXACTLY "@ + crate::text::dec(n) + " entries, one per column:\n"@
        + chunk_json
}

/// Builds the mapping request (see `mapping_prompt_text`).
pub fn mapping_prompt(
    base: &str,
    allowed_json: &str,
    pbc_json: &str,
    taken_json: &str,
    chunk_json: &str,
    n: usize,
) -> (s: String)
    ensures
        s@ == mapping_prompt_text(base@, allowed_json@, pbc_json@, taken_json@, chunk_json@, n as nat),
{
    let mut t = chars_of(base);
    crate::text::extend_str(&mut t, "ALLOWED FIELDS:\n");
    crate::text::extend_str(&mut t, allowed_json);
    crate::text::extend_str(&mut t, "\n\nAUDIT DATA REQUESTS (context):\n");
    crate::text::extend_str(&mut t, pbc_json);
    crate::text::extend_str(&mut t, "\n\nALREADY ASSIGNED (do NOT use these targets \u{2014} they are taken):\n");
    crate::text::extend_str(&mut t, taken_json);
    crate::text::extend_str(&mut t, "\n\nSOURCE COLUMNS \u{2014} output EXACTLY ");
    let d = crate::text::fmt_usize(n);
    crate::text::extend_chars(&mut t, d.as_slice());
    crate::text::extend_str(&mut t, " entries, one per column:\n");
    crate::text::extend_str(&mut t, chunk_json);
    string_of(t.as_slice())
}

/// The JSON text of a list of strings.
pub uninterp spec fn string_array_json(v: Seq<Seq<char>>) -> Seq<char>;

/// Serialises a list of strings (`serde_json::to_string` of a slice of
/// `String`, which cannot fail); the text is a function of the strings alone.
#[verifier::external_body]
fn strings_json(v: &[String]) -> (r: String)
    ensures
        r@ == string_array_json(strs(v@)),
{
    serde_json::to_string(v).unwrap_or_default()
}

/// The JSON text of the data requests sent as context: an array of objects
/// with `control_ref`, `request_name`, `audit_purpose` and `required_fields`.
pub uninterp spec fn pbc_context_json(items: Seq<(Seq<char>, Seq<char>, Seq<char>, Seq<Seq<char>>)>) -> Seq<char>;

/// The views of context entries.
pub open spec fn context_views(items: Seq<(String, String, String, Vec<String>)>) -> Seq<(Seq<char>, Seq<char>, Seq<char>, Seq<Seq<char>>)> {
    Seq::new(items.len(), |i: int| (items[i].0@, items[i].1@, items[i].2@, strs(items[i].3@)))
}

/// Serialises the context entries (`serde_json::to_string` of an array of
/// objects built member by member, which cannot fail); the text is a
/// function of the entries alone.
#[verifier::external_body]
fn pbc_context_text(items: &[(String, String, String, Vec<String>)]) -> (r: String)
    ensures
        r@ == pbc_context_json(context_views(items@)),
{
    let objs: Vec<serde_json::Value> = items.iter().map(|(cref, name, purpose, fields)| {
        let mut m = serde_json::Map::new();
        m.insert("control_ref".to_string(), serde_json::Value::from(cref.clone()));
        m.insert("request_name".to_string(), serde_json::Value::from(name.clone()));
        m.insert("audit_purpose".to_string(), serde_json::Value::from(purpose.clone()));
        m.insert("required_fields".to_string(), serde_json::Value::from(fields.clone()));
        serde_json::Value::Object(m)
    }).collect();
    serde_json::to_string(&serde_json::Value::Array(objs)).unwrap_or_default()
}

/// A request as context: its control, name, purpose and fields.
pub open spec fn context_entry(i: PbcItem) -> (Seq<char>, Seq<char>, Seq<char>, Seq<Seq<char>>) {
    (i.control_ref@, i.name@, i.purpose@, strs(i.fields@))
}

/// The requests of a group that have fields, as context.
pub open spec fn group_context(items: Seq<PbcItem>) -> Seq<(Seq<char>, Seq<char>, Seq<char>, Seq<Seq<char>>)> {
    items.filter(|i: PbcItem| i.fields@.len() > 0).map_values(|i: PbcItem| context_entry(i))
}

/// The requests that have fields, group by group, as context.
pub open spec fn context_items(groups: Seq<PbcGroup>) -> Seq<(Seq<char>, Seq<char>, Seq<char>, Seq<Seq<char>>)> {
    groups.map_values(|g: PbcGroup| group_context(g.items@)).flatten()
}

fn copy_strings(v: &Vec<String>) -> (r: Vec<String>)
    ensures
        strs(r@) == strs(v@),
{
    let mut r: Vec<String> = Vec::new();
    let mut i: usize = 0;
    while i < v.len()
        invariant
            i <= v.len(),
            strs(r@) == strs(v@).take(i as int),
        decreases v.len() - i,
    {
        let ghost prev = strs(r@);
        r.push(v[i].clone());
        assert(strs(r@) =~= prev.push(v@[i as int]@));
        assert(strs(v@).take(i + 1) =~= strs(v@).take(i as int).push(v@[i as int]@));
        i = i + 1;
    }
    assert(strs(v@).take(v.len() as int) =~= strs(v@));
    r
}

/// The context of the data requests sent with every mapping request: the
/// requests that have fields, in order.
pub fn mapping_context_json(groups: &[PbcGroup]) -> (r: String)
    ensures
        r@ == pbc_context_json(context_items(groups@)),
{
    let ghost gf = |g: PbcGroup| group_context(g.items@);
    let ghost hf = |i: PbcItem| i.fields@.len() > 0;
    let ghost ef = |i: PbcItem| context_entry(i);
    let mut items: Vec<(String, String, String, Vec<String>)> = Vec::new();
    let mut g: usize = 0;
    proof {
        crate::seqs::lemma_flatten_empty(groups@, gf);
    }
    while g < groups.len()
        invariant
            g <= groups.len(),
            gf == (|g: PbcGroup| group_context(g.items@)),
            hf == (|i: PbcItem| i.fields@.len() > 0),
            ef == (|i: PbcItem| context_entry(i)),
            context_views(items@) == groups@.take(g as int).map_values(gf).flatten(),
        decreases groups.len() - g,
    {
        let its = &groups[g].items;
        let ghost base = context_views(items@);
        let mut k: usize = 0;
        assert(its@.take(0).filter(hf) =~= Seq::<PbcItem>::empty());
        while k < its.len()
            invariant
                k <= its.len(),
                g < groups.len(),
                *its == groups@[g as int].items,
                hf == (|i: PbcItem| i.fields@.len() > 0),
                ef == (|i: PbcItem| context_entry(i)),
                context_views(items@) == base + its@.take(k as int).filter(hf).map_values(ef),
            decreases its.len() - k,
        {
            let it = &its[k];
            proof {
                its@.take(k as int).lemma_filter_push(its@[k as int], hf);
                assert(its@.take(k + 1) =~= its@.take(k as int).push(its@[k as int]));
            }
            if it.fields.len() > 0 {
                let ghost prev = context_views(items@);
                let fs = copy_strings(&it.fields);
                items.push((it.control_ref.clone(), it.name.clone(), it.purpose.clone(), fs));
                assert(context_views(items@) =~= prev.push(context_entry(its@[k as int])));
                assert(its@.take(k + 1).filter(hf).map_values(ef) =~= its@.take(k as int).filter(hf).map_values(ef).push(
                    context_entry(its@[k as int]),
                ));
            } else {
                assert(its@.take(k + 1).filter(hf) == its@.take(k as int).filter(hf));
            }
            k = k + 1;
        }
        assert(its@.take(its.len() as int) =~= its@);
        proof {
            crate::seqs::lemma_flatten_step(groups@, gf, g as int);
            assert(gf(groups@[g as int]) == its@.filter(hf).map_values(ef));
        }
        g = g + 1;
    }
    assert(groups@.take(groups.len() as int) =~= groups@);
    pbc_context_text(items.as_slice())
}

/// The mapping request for one chunk of columns: the allowed fields (every
/// field of the requests, sorted, without repeats), the requests with
/// fields as context, the targets already taken (sorted, without repeats)
/// and the chunk's columns numbered from 1, each list as JSON.
pub fn chunk_prompt(base: &str, groups: &[PbcGroup], taken: &Vec<String>, chunk: &Vec<String>) -> (s: String)
    requires
        chunk.len() < usize::MAX,
    ensures
        s@ == mapping_prompt_text(
            base@,
            string_array_json(crate::order::sort_dedup(all_fields(groups@))),
            pbc_context_json(context_items(groups@)),
            string_array_json(crate::order::sort_dedup(strs(taken@))),
            string_array_json(numbered_list(strs(chunk@))),
            chunk.len() as nat,
        ),
{
    let fields = collect_fields(groups);
    let allowed = sorted_names(&fields);
    let allowed_json = strings_json(allowed.as_slice());
    let pbc_json = mapping_context_json(groups);
    let taken_sorted = sorted_names(taken);
    let taken_json = strings_json(taken_sorted.as_slice());
    let numbered = numbered_columns(chunk);
    let chunk_json = strings_json(numbered.as_slice());
    mapping_prompt(base, allowed_json.as_str(), pbc_json.as_str(), taken_json.as_str(), chunk_json.as_str(), chunk.len())
}

} // verus!
