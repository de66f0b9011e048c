//! Keywords of free text, used to match controls and labels to tables.
use vstd::prelude::*;
use crate::text::{seqs_of, split_where, utf8_len, utf8_len_at_least};
use crate::unicode::{char_is_alphanumeric, is_alnum, lower_chars, lowercase};

verus! {

/// The pieces of `s` between non-alphanumeric characters
/// (`s.split(|c: char| !c.is_alphanumeric())`).
pub open spec fn alnum_words(s: Seq<char>) -> Seq<Seq<char>> {
    split_where(s, |c: char| !is_alnum(c))
}

/// The words of at least `min` bytes, each lowercased, in order.
pub open spec fn long_lower(ws: Seq<Seq<char>>, min: nat) -> Seq<Seq<char>>
    decreases ws.len(),
{
    if ws.len() == 0 {
        Seq::empty()
    } else {
        let p = long_lower(ws.drop_last(), min);
        if utf8_len(ws.last()) >= min {
            p.push(lowercase(ws.last()))
        } else {
            p
        }
    }
}

/// The keywords of a text: its alphanumeric words of at least four bytes,
/// lowercased.
pub open spec fn text_keywords(s: Seq<char>) -> Seq<Seq<char>> {
    long_lower(alnum_words(s), 4)
}

pub proof fn lemma_long_lower_len(ws: Seq<Seq<char>>, min: nat)
    ensures
        long_lower(ws, min).len() <= ws.len(),
    decreases ws.len(),
{
    if ws.len() > 0 {
        lemma_long_lower_len(ws.drop_last(), min);
    }
}

/// Splits `s` at every non-alphanumeric character.
pub fn split_non_alnum(s: &[char]) -> (parts: Vec<Vec<char>>)
    ensures
        seqs_of(parts@) == alnum_words(s@),
{
    let ghost sep = |c: char| !is_alnum(c);
    let mut parts: Vec<Vec<char>> = Vec::new();
    let mut cur: Vec<char> = Vec::new();
    let mut i: usize = 0;
    assert(s@.take(0) =~= Seq::<char>::empty());
    assert(seqs_of(parts@).push(cur@) =~= seq![Seq::<char>::empty()]);
    while i < s.len()
        invariant
            i <= s.len(),
            sep == (|c: char| !is_alnum(c)),
            seqs_of(parts@).push(cur@) == split_where(s@.take(i as int), sep),
        decreases s.len() - i,
    {
        let c = s[i];
        let ghost prev = split_where(s@.take(i as int), sep);
        proof {
            assert(s@.take(i + 1).drop_last() =~= s@.take(i as int));
            assert(s@.take(i + 1).last() == c);
        }
        if !char_is_alphanumeric(c) {
            let ghost old_parts = seqs_of(parts@);
            parts.push(cur);
            cur = Vec::new();
            proof {
                assert(seqs_of(parts@) =~= old_parts.push(prev.last()));
                assert(seqs_of(parts@).push(cur@) =~= prev.push(Seq::<char>::empty()));
            }
        } else {
            cur.push(c);
            proof {
                assert(seqs_of(parts@).push(cur@) =~= prev.update(prev.len() - 1, prev.last().push(c)));
            }
        }
        i = i + 1;
    }
    assert(s@.take(s.len() as int) =~= s@);
    let ghost before = seqs_of(parts@);
    parts.push(cur);
    assert(seqs_of(parts@) =~= before.push(cur@));
    parts
}

/// Keeps the words of at least `min` bytes and lowercases them.
pub fn keep_long_lower(ws: &[Vec<char>], min: usize) -> (r: Vec<Vec<char>>)
    ensures
        seqs_of(r@) == long_lower(seqs_of(ws@), min as nat),
{
    let mut r: Vec<Vec<char>> = Vec::new();
    let mut i: usize = 0;
    assert(seqs_of(ws@).take(0) =~= Seq::<Seq<char>>::empty());
    while i < ws.len()
        invariant
            i <= ws.len(),
            seqs_of(r@) == long_lower(seqs_of(ws@).take(i as int), min as nat),
        decreases ws.len() - i,
    {
        proof {
            assert(seqs_of(ws@).take(i + 1).drop_last() =~= seqs_of(ws@).take(i as int));
            assert(seqs_of(ws@).take(i + 1).last() == ws@[i as int]@);
        }
        if utf8_len_at_least(ws[i].as_slice(), min) {
            let l = lower_chars(ws[i].as_slice());
            let ghost prev = seqs_of(r@);
            r.push(l);
            assert(seqs_of(r@) =~= prev.push(l@));
        }
        i = i + 1;
    }
    assert(seqs_of(ws@).take(ws.len() as int) =~= seqs_of(ws@));
    r
}

/// The keywords of a text.
pub fn keywords_of(s: &[char]) -> (r: Vec<Vec<char>>)
    ensures
        seqs_of(r@) == text_keywords(s@),
        r.len() <= s.len() + 1,
{
    let w = split_non_alnum(s);
    proof {
        crate::text::lemma_split_where_len(s@, |c: char| !is_alnum(c));
        lemma_long_lower_len(seqs_of(w@), 4);
    }
    keep_long_lower(w.as_slice(), 4)
}

} // verus!
