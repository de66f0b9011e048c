//! Splitting a long SOP document into chunks that fit one request to the
//! model, at paragraph boundaries.
use vstd::prelude::*;
use crate::text::{
    is_ws, join, lemma_trim_ends, lemma_trim_fixed, lemma_trim_utf8_le, lemma_utf8_len_concat,
    lemma_utf8_len_push, char_width, chars_of, slice_range, width_of, extend_chars, extend_str, seqs_of, split, split_str, string_of, trim, trim_chars,
    utf8_len, utf8_len_capped,
};

verus! {

/// The most bytes a chunk is meant to have (about five pages of text).
pub const CHUNK_CHARS: usize = 7500;

/// Adds one paragraph to the chunks built so far and the chunk being built:
/// blank paragraphs are skipped; the current chunk is closed first when the
/// paragraph (with its separator) would take it past `CHUNK_CHARS` bytes.
pub open spec fn chunk_step(st: (Seq<Seq<char>>, Seq<char>), para: Seq<char>) -> (Seq<Seq<char>>, Seq<char>) {
    let p = trim(para);
    if p.len() == 0 {
        st
    } else {
        let closed: (Seq<Seq<char>>, Seq<char>) = if st.1.len() > 0 && utf8_len(st.1) + utf8_len(p) + 2 > CHUNK_CHARS {
            (st.0.push(trim(st.1)), Seq::empty())
        } else {
            st
        };
        let cur = if closed.1.len() > 0 {
            closed.1 + "\n\n"@
        } else {
            closed.1
        };
        (closed.0, cur + p)
    }
}

/// The state after the first `n` paragraphs.
pub open spec fn chunk_fold(paras: Seq<Seq<char>>, n: nat) -> (Seq<Seq<char>>, Seq<char>)
    decreases n,
{
    if n == 0 {
        (Seq::empty(), Seq::empty())
    } else {
        chunk_step(chunk_fold(paras, (n - 1) as nat), paras[n - 1])
    }
}

/// The paragraphs of a text: the pieces between blank-line separators.
pub open spec fn paragraphs(text: Seq<char>) -> Seq<Seq<char>> {
    split(text, "\n\n"@)
}

/// A paragraph may be cut after its first `k` characters at a line break,
/// or after a full stop that a space follows (the end of a sentence).
pub open spec fn is_break(p: Seq<char>, k: int) -> bool {
    0 < k <= p.len() && (p[k - 1] == '\n' || (p[k - 1] == '.' && k < p.len() && p[k] == ' '))
}

/// The most characters of `p`, counting on from `k`, whose UTF-8 form fits
/// in `CHUNK_CHARS` bytes.
pub open spec fn fit_from(p: Seq<char>, k: int) -> int
    decreases p.len() - k,
{
    if 0 <= k < p.len() && utf8_len(p.take(k + 1)) <= CHUNK_CHARS {
        fit_from(p, k + 1)
    } else {
        k
    }
}

/// The last break at or before `k`, or 0 when there is none.
pub open spec fn last_break(p: Seq<char>, k: int) -> int
    decreases k,
{
    if k <= 0 {
        0
    } else if is_break(p, k) {
        k
    } else {
        last_break(p, k - 1)
    }
}

/// Where a paragraph too long for one chunk is cut: at the last line break
/// or sentence end that fits, else after the last character that fits.
pub open spec fn cut_at(p: Seq<char>) -> int {
    let f = fit_from(p, 0);
    let b = last_break(p, f);
    if b > 0 {
        b
    } else {
        f
    }
}

/// A paragraph cut into pieces of at most `CHUNK_CHARS` bytes each.
pub open spec fn pieces(p: Seq<char>) -> Seq<Seq<char>>
    decreases p.len(),
{
    if p.len() == 0 {
        Seq::empty()
    } else if utf8_len(p) <= CHUNK_CHARS {
        seq![p]
    } else {
        let k = cut_at(p);
        if 0 < k <= p.len() {
            seq![p.take(k)] + pieces(p.skip(k))
        } else {
            seq![p]
        }
    }
}

/// What a paragraph packs as: itself, or its pieces when it is longer than
/// `CHUNK_CHARS` bytes once trimmed.
pub open spec fn units_of(para: Seq<char>) -> Seq<Seq<char>> {
    if utf8_len(trim(para)) <= CHUNK_CHARS {
        seq![para]
    } else {
        pieces(trim(para))
    }
}

/// The units packed into chunks: the paragraphs, long ones in pieces.
pub open spec fn units(ps: Seq<Seq<char>>) -> Seq<Seq<char>> {
    ps.map_values(|para: Seq<char>| units_of(para)).flatten()
}

/// The chunks of an SOP: the text itself when it has at most `CHUNK_CHARS`
/// bytes; otherwise its trimmed non-blank paragraphs (a paragraph longer
/// than `CHUNK_CHARS` bytes cut into pieces at line breaks or sentence
/// ends), in order, packed into chunks joined by blank lines (each chunk
/// trimmed), and one empty chunk if that leaves none (the text is then
/// blank).
pub open spec fn sop_chunks(text: Seq<char>) -> Seq<Seq<char>> {
    if utf8_len(text) <= CHUNK_CHARS {
        seq![text]
    } else {
        let us = units(paragraphs(text));
        let st = chunk_fold(us, us.len());
        let all = if trim(st.1).len() > 0 {
            st.0.push(trim(st.1))
        } else {
            st.0
        };
        if all.len() == 0 {
            seq![Seq::empty()]
        } else {
            all
        }
    }
}

proof fn lemma_prefix_bytes(p: Seq<char>, j: int, k: int)
    requires
        0 <= j <= k <= p.len(),
    ensures
        utf8_len(p.take(j)) <= utf8_len(p.take(k)),
{
    assert(p.take(k) =~= p.take(j) + p.subrange(j, k));
    lemma_utf8_len_concat(p.take(j), p.subrange(j, k));
}

proof fn lemma_fit_from(p: Seq<char>, k: int)
    requires
        0 <= k <= p.len(),
        utf8_len(p.take(k)) <= CHUNK_CHARS,
    ensures
        k <= fit_from(p, k) <= p.len(),
        utf8_len(p.take(fit_from(p, k))) <= CHUNK_CHARS,
    decreases p.len() - k,
{
    if k < p.len() && utf8_len(p.take(k + 1)) <= CHUNK_CHARS {
        lemma_fit_from(p, k + 1);
    }
}

proof fn lemma_last_break(p: Seq<char>, k: int)
    ensures
        0 <= last_break(p, k),
        k >= 0 ==> last_break(p, k) <= k,
    decreases k,
{
    if k > 0 && !is_break(p, k) {
        lemma_last_break(p, k - 1);
    }
}

proof fn lemma_char_bytes(c: char)
    ensures
        utf8_len(seq![c]) == char_width(c),
        char_width(c) <= 4,
{
    lemma_utf8_len_push(Seq::<char>::empty(), c);
    assert(Seq::<char>::empty().push(c) =~= seq![c]);
    assert(vstd::utf8::encode_utf8(Seq::<char>::empty()) =~= Seq::<u8>::empty());
}

/// A long paragraph is cut after at least one character and within it, and
/// the piece cut off fits.
proof fn lemma_cut_at(p: Seq<char>)
    requires
        p.len() > 0,
    ensures
        0 < cut_at(p) <= p.len(),
        utf8_len(p.take(cut_at(p))) <= CHUNK_CHARS,
{
    assert(utf8_len(p.take(0)) == 0) by {
        assert(p.take(0) =~= Seq::<char>::empty());
        assert(vstd::utf8::encode_utf8(Seq::<char>::empty()) =~= Seq::<u8>::empty());
    }
    lemma_char_bytes(p[0]);
    assert(p.take(1) =~= seq![p[0]]);
    lemma_fit_from(p, 1);
    assert(fit_from(p, 0) == fit_from(p, 1));
    let f = fit_from(p, 0);
    lemma_last_break(p, f);
    lemma_prefix_bytes(p, cut_at(p), f);
}

/// Every piece of a paragraph fits in a chunk.
pub proof fn lemma_pieces_fit(p: Seq<char>)
    ensures
        forall|j: int| 0 <= j < pieces(p).len() ==> utf8_len(#[trigger] pieces(p)[j]) <= CHUNK_CHARS,
    decreases p.len(),
{
    if p.len() > 0 && utf8_len(p) > CHUNK_CHARS {
        lemma_cut_at(p);
        let k = cut_at(p);
        lemma_pieces_fit(p.skip(k));
        assert forall|j: int| 0 <= j < pieces(p).len() implies utf8_len(#[trigger] pieces(p)[j]) <= CHUNK_CHARS by {
            if j > 0 {
                assert(pieces(p)[j] == pieces(p.skip(k))[j - 1]);
            }
        }
    }
}

/// Every unit fits in a chunk once trimmed.
proof fn lemma_units_fit(ps: Seq<Seq<char>>)
    ensures
        forall|i: int| 0 <= i < units(ps).len() ==> utf8_len(#[trigger] trim(units(ps)[i])) <= CHUNK_CHARS,
    decreases ps.len(),
{
    let f = |para: Seq<char>| units_of(para);
    if ps.len() > 0 {
        let q = ps.drop_last();
        lemma_units_fit(q);
        let para = ps.last();
        assert(ps.map_values(f) =~= q.map_values(f).push(f(para)));
        q.map_values(f).lemma_flatten_push(f(para));
        assert(units(ps) == units(q) + units_of(para));
        if utf8_len(trim(para)) > CHUNK_CHARS {
            lemma_pieces_fit(trim(para));
        }
        assert forall|i: int| 0 <= i < units(ps).len() implies utf8_len(#[trigger] trim(units(ps)[i])) <= CHUNK_CHARS by {
            if i < units(q).len() {
                assert(units(ps)[i] == units(q)[i]);
            } else {
                let u = units_of(para)[i - units(q).len()];
                assert(units(ps)[i] == u);
                lemma_trim_utf8_le(u);
            }
        }
    } else {
        assert(ps.map_values(f) =~= Seq::<Seq<Seq<char>>>::empty());
    }
}

fn cut_exec(p: &[char]) -> (k: usize)
    requires
        p.len() > 0,
    ensures
        k == cut_at(p@),
{
    let mut f: usize = 0;
    let mut bytes: usize = 0;
    assert(p@.take(0) =~= Seq::<char>::empty());
    assert(vstd::utf8::encode_utf8(Seq::<char>::empty()) =~= Seq::<u8>::empty());
    while f < p.len() && bytes + width_of(p[f]) <= CHUNK_CHARS
        invariant
            f <= p.len(),
            bytes == utf8_len(p@.take(f as int)),
            bytes <= CHUNK_CHARS,
            fit_from(p@, 0) == fit_from(p@, f as int),
        decreases p.len() - f,
    {
        proof {
            assert(p@.take(f + 1) =~= p@.take(f as int).push(p@[f as int]));
            lemma_utf8_len_push(p@.take(f as int), p@[f as int]);
        }
        bytes = bytes + width_of(p[f]);
        f = f + 1;
    }
    proof {
        if f < p.len() {
            assert(p@.take(f + 1) =~= p@.take(f as int).push(p@[f as int]));
            lemma_utf8_len_push(p@.take(f as int), p@[f as int]);
        }
    }
    let mut b: usize = f;
    while b > 0 && !(p[b - 1] == '\n' || (p[b - 1] == '.' && b < p.len() && p[b] == ' '))
        invariant
            b <= f,
            f <= p.len(),
            last_break(p@, f as int) == last_break(p@, b as int),
        decreases b,
    {
        b = b - 1;
    }
    if b > 0 {
        b
    } else {
        f
    }
}

/// Cuts a paragraph into pieces of at most `CHUNK_CHARS` bytes (see `pieces`).
fn pieces_exec(p: &[char]) -> (r: Vec<Vec<char>>)
    ensures
        seqs_of(r@) == pieces(p@),
{
    let mut r: Vec<Vec<char>> = Vec::new();
    let mut start: usize = 0;
    assert(p@.skip(0) =~= p@);
    while start < p.len()
        invariant
            start <= p.len(),
            pieces(p@) == seqs_of(r@) + pieces(p@.skip(start as int)),
        decreases p.len() - start,
    {
        let rest = slice_range(p, start, p.len());
        assert(rest@ =~= p@.skip(start as int));
        let ghost prev = seqs_of(r@);
        if utf8_len_capped(rest.as_slice(), CHUNK_CHARS + 1) <= CHUNK_CHARS {
            r.push(rest);
            assert(seqs_of(r@) =~= prev.push(p@.skip(start as int)));
            assert(p@.skip(p.len() as int) =~= Seq::<char>::empty());
            assert(seqs_of(r@) + pieces(p@.skip(p.len() as int)) =~= prev + pieces(p@.skip(start as int)));
            start = p.len();
        } else {
            let k = cut_exec(rest.as_slice());
            proof {
                lemma_cut_at(rest@);
            }
            let piece = slice_range(rest.as_slice(), 0, k);
            assert(piece@ =~= rest@.take(k as int));
            r.push(piece);
            assert(rest@.skip(k as int) =~= p@.skip(start + k));
            assert(seqs_of(r@) =~= prev.push(rest@.take(k as int)));
            assert(seqs_of(r@) + pieces(p@.skip(start + k)) =~= prev + pieces(p@.skip(start as int)));
            start = start + k;
        }
    }
    assert(p@.skip(p.len() as int) =~= Seq::<char>::empty());
    assert(seqs_of(r@) + Seq::<Seq<char>>::empty() =~= seqs_of(r@));
    r
}

fn units_exec(ps: &Vec<Vec<char>>) -> (r: Vec<Vec<char>>)
    ensures
        seqs_of(r@) == units(seqs_of(ps@)),
{
    let ghost psv = seqs_of(ps@);
    let ghost f = |para: Seq<char>| units_of(para);
    let mut r: Vec<Vec<char>> = Vec::new();
    let mut i: usize = 0;
    proof {
        crate::seqs::lemma_flatten_empty(psv, f);
    }
    while i < ps.len()
        invariant
            i <= ps.len(),
            psv == seqs_of(ps@),
            f == (|para: Seq<char>| units_of(para)),
            seqs_of(r@) == psv.take(i as int).map_values(f).flatten(),
        decreases ps.len() - i,
    {
        assert(psv[i as int] == ps@[i as int]@);
        let t = trim_chars(ps[i].as_slice());
        let ghost prev = seqs_of(r@);
        if utf8_len_capped(t.as_slice(), CHUNK_CHARS + 1) <= CHUNK_CHARS {
            let c = slice_range(ps[i].as_slice(), 0, ps[i].len());
            assert(c@ =~= ps@[i as int]@);
            r.push(c);
            assert(seqs_of(r@) =~= prev + seq![psv[i as int]]);
        } else {
            let pcs = pieces_exec(t.as_slice());
            let mut j: usize = 0;
            while j < pcs.len()
                invariant
                    j <= pcs.len(),
                    seqs_of(r@) == prev + seqs_of(pcs@).take(j as int),
                decreases pcs.len() - j,
            {
                let c = slice_range(pcs[j].as_slice(), 0, pcs[j].len());
                assert(c@ =~= pcs@[j as int]@);
                let ghost before = seqs_of(r@);
                r.push(c);
                assert(seqs_of(r@) =~= before.push(pcs@[j as int]@));
                assert(seqs_of(pcs@).take(j + 1) =~= seqs_of(pcs@).take(j as int).push(pcs@[j as int]@));
                j = j + 1;
            }
            assert(seqs_of(pcs@).take(pcs.len() as int) =~= seqs_of(pcs@));
        }
        proof {
            crate::seqs::lemma_flatten_step(psv, f, i as int);
            assert(f(psv[i as int]) == units_of(psv[i as int]));
        }
        i = i + 1;
    }
    assert(psv.take(ps.len() as int) =~= psv);
    r
}

/// Splits an SOP into chunks of at most `CHUNK_CHARS` bytes at paragraph
/// boundaries, cutting a longer paragraph at line breaks or sentence ends
/// (see `sop_chunks`).
pub fn chunk_sop(text: &str) -> (chunks: Vec<String>)
    ensures
        crate::model::strs(chunks@) == sop_chunks(text@),
        chunks@.len() > 0,
        forall|j: int| 0 <= j < chunks@.len() ==> utf8_len((#[trigger] chunks@[j])@) <= CHUNK_CHARS,
{
    proof {
        law_chunks_fit(text@);
    }
    let t = chars_of(text);
    if utf8_len_capped(t.as_slice(), CHUNK_CHARS + 1) <= CHUNK_CHARS {
        let mut v: Vec<String> = Vec::new();
        v.push(string_of(t.as_slice()));
        assert(crate::model::strs(v@) =~= seq![text@]);
        assert(v@[0]@ == crate::model::strs(v@)[0]);
        return v;
    }
    proof {
        reveal_strlit("\n\n");
    }
    let raw = split_str(t.as_slice(), "\n\n");
    let ps = units_exec(&raw);
    let ghost psv = seqs_of(ps@);
    let mut chunks: Vec<Vec<char>> = Vec::new();
    let mut current: Vec<char> = Vec::new();
    let mut i: usize = 0;
    while i < ps.len()
        invariant
            i <= ps.len(),
            psv == seqs_of(ps@),
            psv == units(paragraphs(text@)),
            chunk_fold(psv, i as nat) == (seqs_of(chunks@), current@),
        decreases ps.len() - i,
    {
        let p = trim_chars(ps[i].as_slice());
        assert(psv[i as int] == ps@[i as int]@);
        if p.len() > 0 {
            let a = utf8_len_capped(current.as_slice(), CHUNK_CHARS + 1);
            let b = utf8_len_capped(p.as_slice(), CHUNK_CHARS + 1);
            if current.len() > 0 && a + b + 2 > CHUNK_CHARS {
                let c = trim_chars(current.as_slice());
                let ghost prev = seqs_of(chunks@);
                chunks.push(c);
                assert(seqs_of(chunks@) =~= prev.push(trim(current@)));
                current = Vec::new();
            }
            if current.len() > 0 {
                extend_str(&mut current, "\n\n");
            }
            extend_chars(&mut current, p.as_slice());
        }
        i = i + 1;
    }
    let last = trim_chars(current.as_slice());
    if last.len() > 0 {
        let ghost prev = seqs_of(chunks@);
        chunks.push(last);
        assert(seqs_of(chunks@) =~= prev.push(trim(current@)));
    }
    if chunks.len() == 0 {
        chunks.push(Vec::new());
        assert(seqs_of(chunks@) =~= seq![Seq::<char>::empty()]);
    }
    let mut out: Vec<String> = Vec::new();
    let mut k: usize = 0;
    while k < chunks.len()
        invariant
            k <= chunks.len(),
            crate::model::strs(out@) == seqs_of(chunks@).take(k as int),
        decreases chunks.len() - k,
    {
        let ghost prev = crate::model::strs(out@);
        let s = string_of(chunks[k].as_slice());
        out.push(s);
        assert(crate::model::strs(out@) =~= prev.push(chunks@[k as int]@));
        assert(seqs_of(chunks@).take(k + 1) =~= seqs_of(chunks@).take(k as int).push(chunks@[k as int]@));
        k = k + 1;
    }
    assert(seqs_of(chunks@).take(chunks.len() as int) =~= seqs_of(chunks@));
    assert forall|j: int| 0 <= j < out@.len() implies utf8_len((#[trigger] out@[j])@) <= CHUNK_CHARS by {
        assert(out@[j]@ == crate::model::strs(out@)[j]);
    }
    out
}

// ───────────────────────────── what chunking keeps ─────────────────────────────

/// The trimmed non-blank paragraphs, in order.
pub open spec fn kept_paragraphs(ps: Seq<Seq<char>>) -> Seq<Seq<char>>
    decreases ps.len(),
{
    if ps.len() == 0 {
        Seq::empty()
    } else {
        let k = kept_paragraphs(ps.drop_last());
        if trim(ps.last()).len() > 0 {
            k.push(trim(ps.last()))
        } else {
            k
        }
    }
}

/// The closed chunks followed by the open one, if it is not empty.
pub open spec fn open_view(st: (Seq<Seq<char>>, Seq<char>)) -> Seq<Seq<char>> {
    if st.1.len() > 0 {
        st.0.push(st.1)
    } else {
        st.0
    }
}

/// Empty, or starting and ending with non-whitespace.
pub open spec fn tidy(s: Seq<char>) -> bool {
    s.len() == 0 || (!is_ws(s[0]) && !is_ws(s.last()))
}

proof fn lemma_join_push(parts: Seq<Seq<char>>, x: Seq<char>, sep: Seq<char>)
    ensures
        join(parts.push(x), sep) == (if parts.len() == 0 {
            x
        } else {
            join(parts, sep) + sep + x
        }),
{
    assert(parts.push(x).drop_last() =~= parts);
    if parts.len() == 0 {
        assert(parts.push(x) =~= seq![x]);
    }
}

proof fn lemma_sep_bytes()
    ensures
        utf8_len("\n\n"@) == 2,
        "\n\n"@.len() == 2,
{
    reveal_strlit("\n\n");
    let e = Seq::<char>::empty();
    assert(vstd::utf8::encode_utf8(e) =~= Seq::<u8>::empty());
    lemma_utf8_len_push(e, '\n');
    lemma_utf8_len_push(e.push('\n'), '\n');
    assert(e.push('\n').push('\n') =~= "\n\n"@);
}

proof fn lemma_fold_invariant(ps: Seq<Seq<char>>, n: nat)
    requires
        n <= ps.len(),
    ensures
        tidy(chunk_fold(ps, n).1),
        join(open_view(chunk_fold(ps, n)), "\n\n"@) == join(kept_paragraphs(ps.take(n as int)), "\n\n"@),
        (open_view(chunk_fold(ps, n)).len() == 0) == (kept_paragraphs(ps.take(n as int)).len() == 0),
        (forall|i: int| 0 <= i < ps.len() ==> utf8_len(#[trigger] trim(ps[i])) <= CHUNK_CHARS) ==> {
            &&& utf8_len(chunk_fold(ps, n).1) <= CHUNK_CHARS
            &&& forall|j: int| 0 <= j < chunk_fold(ps, n).0.len() ==> utf8_len(#[trigger] chunk_fold(ps, n).0[j]) <= CHUNK_CHARS
        },
    decreases n,
{
    let sep = "\n\n"@;
    lemma_sep_bytes();
    if n == 0 {
        assert(ps.take(0) =~= Seq::<Seq<char>>::empty());
        assert(vstd::utf8::encode_utf8(Seq::<char>::empty()) =~= Seq::<u8>::empty());
    } else {
        let m = (n - 1) as nat;
        lemma_fold_invariant(ps, m);
        let st = chunk_fold(ps, m);
        let para = ps[m as int];
        let p = trim(para);
        assert(ps.take(n as int).drop_last() =~= ps.take(m as int));
        assert(ps.take(n as int).last() == para);
        let kept = kept_paragraphs(ps.take(m as int));
        lemma_trim_ends(para);
        lemma_trim_utf8_le(para);
        if p.len() > 0 {
            lemma_join_push(kept, p, sep);
            let close = st.1.len() > 0 && utf8_len(st.1) + utf8_len(p) + 2 > CHUNK_CHARS;
            if close {
                lemma_trim_fixed(st.1);
                let nst = chunk_fold(ps, n);
                assert(nst.0 == st.0.push(st.1));
                assert(nst.1 =~= p);
                assert(open_view(nst) =~= st.0.push(st.1).push(p));
                lemma_join_push(st.0.push(st.1), p, sep);
            } else if st.1.len() > 0 {
                let nst = chunk_fold(ps, n);
                assert(nst.1 == st.1 + sep + p);
                assert(nst.1[0] == st.1[0]);
                assert(nst.1.last() == p.last());
                lemma_join_push(st.0, st.1, sep);
                lemma_join_push(st.0, st.1 + sep + p, sep);
                assert(open_view(nst) == st.0.push(st.1 + sep + p));
                assert(join(open_view(nst), sep) =~= join(open_view(st), sep) + sep + p);
                lemma_utf8_len_concat(st.1, sep);
                lemma_utf8_len_concat(st.1 + sep, p);
            } else {
                let nst = chunk_fold(ps, n);
                assert(nst.1 =~= p);
                lemma_join_push(st.0, p, sep);
            }
        }
    }
}

/// A text of at most `CHUNK_CHARS` bytes is one chunk, as it is.
pub proof fn law_short_text_is_one_chunk(text: Seq<char>)
    requires
        utf8_len(text) <= CHUNK_CHARS,
    ensures
        sop_chunks(text) == seq![text],
{
}

/// Chunking a long text keeps its paragraphs in order: the chunks joined
/// by blank lines are the trimmed non-blank paragraphs (a paragraph longer
/// than `CHUNK_CHARS` bytes in its pieces) joined by blank lines.
pub proof fn law_chunks_keep_paragraphs(text: Seq<char>)
    requires
        utf8_len(text) > CHUNK_CHARS,
        kept_paragraphs(units(paragraphs(text))).len() > 0,
    ensures
        join(sop_chunks(text), "\n\n"@) == join(kept_paragraphs(units(paragraphs(text))), "\n\n"@),
{
    let ps = units(paragraphs(text));
    lemma_fold_invariant(ps, ps.len());
    assert(ps.take(ps.len() as int) =~= ps);
    let st = chunk_fold(ps, ps.len());
    if st.1.len() > 0 {
        lemma_trim_fixed(st.1);
    } else {
        assert(trim(st.1).len() == 0) by {
            lemma_trim_utf8_le(st.1);
            crate::text::lemma_first_non_ws_bounds(st.1, 0);
        }
    }
}

/// Every chunk has at most `CHUNK_CHARS` bytes, and there is at least one.
pub proof fn law_chunks_fit(text: Seq<char>)
    ensures
        sop_chunks(text).len() > 0,
        forall|j: int| 0 <= j < sop_chunks(text).len() ==> utf8_len(#[trigger] sop_chunks(text)[j]) <= CHUNK_CHARS,
{
    if utf8_len(text) > CHUNK_CHARS {
        let ps = units(paragraphs(text));
        lemma_units_fit(paragraphs(text));
        lemma_fold_invariant(ps, ps.len());
        let st = chunk_fold(ps, ps.len());
        lemma_trim_utf8_le(st.1);
        assert(utf8_len(Seq::<char>::empty()) == 0) by {
            assert(vstd::utf8::encode_utf8(Seq::<char>::empty()) =~= Seq::<u8>::empty());
        }
    }
}

} // verus!
