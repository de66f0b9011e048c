//! Text model: a string is viewed as its sequence of `char`s (`s@`).
//! This module states the std string operations that the library relies on
//! (search, split, trim, lines, join, replace) over that model and provides
//! verified implementations of them on `char` slices.
use vstd::prelude::*;

verus! {

// ───────────────────────────── conversions ─────────────────────────────

/// Appends one character to a `String` (`String::push`).
#[verifier::external_body]
pub(crate) fn push_char(s: &mut String, c: char)
    ensures
        final(s)@ == old(s)@.push(c),
{
    s.push(c);
}

/// The characters of a string slice, in order.
pub fn chars_of(s: &str) -> (v: Vec<char>)
    ensures
        v@ == s@,
{
    let mut v: Vec<char> = Vec::new();
    for c in it: s.chars()
        invariant
            v@ == it.seq().take(it.index() as int),
    {
        v.push(c);
    }
    v
}

/// Builds a `String` from a slice of characters.
pub fn string_of(v: &[char]) -> (s: String)
    ensures
        s@ == v@,
{
    let mut s = String::new();
    let mut i: usize = 0;
    while i < v.len()
        invariant
            i <= v.len(),
            s@ == v@.take(i as int),
        decreases v.len() - i,
    {
        push_char(&mut s, v[i]);
        assert(v@.take(i + 1) == v@.take(i as int).push(v@[i as int]));
        i = i + 1;
    }
    assert(v@.take(v.len() as int) == v@);
    s
}

/// Appends a slice of characters to a vector.
pub fn extend_chars(out: &mut Vec<char>, s: &[char])
    ensures
        final(out)@ == old(out)@ + s@,
{
    let mut i: usize = 0;
    while i < s.len()
        invariant
            i <= s.len(),
            out@ == old(out)@ + s@.take(i as int),
        decreases s.len() - i,
    {
        out.push(s[i]);
        assert(s@.take(i + 1) == s@.take(i as int).push(s@[i as int]));
        i = i + 1;
    }
    assert(s@.take(s.len() as int) == s@);
}

/// Appends the characters of a string slice to a vector.
pub fn extend_str(out: &mut Vec<char>, s: &str)
    ensures
        final(out)@ == old(out)@ + s@,
{
    let v = chars_of(s);
    extend_chars(out, v.as_slice());
}

// ───────────────────────────── whitespace ─────────────────────────────

/// `char::is_whitespace`: the Unicode `White_Space` property.
pub open spec fn is_ws(c: char) -> bool {
    let u = c as u32;
    (0x9 <= u && u <= 0xD) || u == 0x20 || u == 0x85 || u == 0xA0 || u == 0x1680
        || (0x2000 <= u && u <= 0x200A) || u == 0x2028 || u == 0x2029 || u == 0x202F
        || u == 0x205F || u == 0x3000
}

pub fn is_whitespace(c: char) -> (b: bool)
    ensures
        b == is_ws(c),
{
    let u = c as u32;
    (0x9 <= u && u <= 0xD) || u == 0x20 || u == 0x85 || u == 0xA0 || u == 0x1680
        || (0x2000 <= u && u <= 0x200A) || u == 0x2028 || u == 0x2029 || u == 0x202F
        || u == 0x205F || u == 0x3000
}

/// Index of the first non-whitespace character at or after `i` (or `s.len()`).
pub open spec fn first_non_ws_from(s: Seq<char>, i: int) -> int
    decreases s.len() - i,
{
    if i < 0 || i >= s.len() {
        s.len() as int
    } else if is_ws(s[i]) {
        first_non_ws_from(s, i + 1)
    } else {
        i
    }
}

/// End of the last non-whitespace character at or before `j` (or `0`).
pub open spec fn last_non_ws_end(s: Seq<char>, j: int) -> int
    decreases j,
{
    if j <= 0 || j > s.len() {
        0
    } else if is_ws(s[j - 1]) {
        last_non_ws_end(s, j - 1)
    } else {
        j
    }
}

/// `str::trim_start`.
pub open spec fn trim_start(s: Seq<char>) -> Seq<char> {
    s.skip(first_non_ws_from(s, 0))
}

/// `str::trim_end`.
pub open spec fn trim_end(s: Seq<char>) -> Seq<char> {
    s.take(last_non_ws_end(s, s.len() as int))
}

/// `str::trim`.
pub open spec fn trim(s: Seq<char>) -> Seq<char> {
    trim_end(trim_start(s))
}

pub proof fn lemma_first_non_ws_bounds(s: Seq<char>, i: int)
    requires
        0 <= i,
    ensures
        i <= first_non_ws_from(s, i) <= s.len() || (i > s.len() && first_non_ws_from(s, i) == s.len()),
        first_non_ws_from(s, i) < s.len() ==> !is_ws(s[first_non_ws_from(s, i)]),
        forall|k: int| i <= k < first_non_ws_from(s, i) ==> is_ws(#[trigger] s[k]),
    decreases s.len() - i,
{
    if i < s.len() && is_ws(s[i]) {
        lemma_first_non_ws_bounds(s, i + 1);
    }
}

pub proof fn lemma_last_non_ws_bounds(s: Seq<char>, j: int)
    requires
        0 <= j <= s.len(),
    ensures
        0 <= last_non_ws_end(s, j) <= j,
        last_non_ws_end(s, j) > 0 ==> !is_ws(s[last_non_ws_end(s, j) - 1]),
        forall|k: int| last_non_ws_end(s, j) <= k < j ==> is_ws(#[trigger] s[k]),
    decreases j,
{
    if j > 0 && is_ws(s[j - 1]) {
        lemma_last_non_ws_bounds(s, j - 1);
    }
}

/// Start of `trim_start(s)` within `s`.
pub fn trim_start_index(s: &[char]) -> (i: usize)
    ensures
        i as int == first_non_ws_from(s@, 0),
        trim_start(s@) == s@.skip(i as int),
        i <= s.len(),
{
    let mut i: usize = 0;
    while i < s.len() && is_whitespace(s[i])
        invariant
            i <= s.len(),
            first_non_ws_from(s@, i as int) == first_non_ws_from(s@, 0),
        decreases s.len() - i,
    {
        i = i + 1;
    }
    i
}

/// End of `trim_end(s)` within `s`.
pub fn trim_end_index(s: &[char]) -> (j: usize)
    ensures
        j as int == last_non_ws_end(s@, s@.len() as int),
        trim_end(s@) == s@.take(j as int),
        j <= s.len(),
{
    let mut j: usize = s.len();
    while j > 0 && is_whitespace(s[j - 1])
        invariant
            j <= s.len(),
            last_non_ws_end(s@, j as int) == last_non_ws_end(s@, s@.len() as int),
        decreases j,
    {
        j = j - 1;
    }
    j
}

/// `str::trim` on a character slice.
pub fn trim_chars(s: &[char]) -> (r: Vec<char>)
    ensures
        r@ == trim(s@),
{
    let i = trim_start_index(s);
    let t = slice_range(s, i, s.len());
    let j = trim_end_index(t.as_slice());
    slice_range(t.as_slice(), 0, j)
}

/// `s[from..to]` as a new vector.
pub fn slice_range(s: &[char], from: usize, to: usize) -> (r: Vec<char>)
    requires
        from <= to <= s.len(),
    ensures
        r@ == s@.subrange(from as int, to as int),
{
    let mut r: Vec<char> = Vec::new();
    let mut k = from;
    while k < to
        invariant
            from <= k <= to <= s.len(),
            r@ == s@.subrange(from as int, k as int),
        decreases to - k,
    {
        r.push(s[k]);
        assert(s@.subrange(from as int, k + 1) == s@.subrange(from as int, k as int).push(s@[k as int]));
        k = k + 1;
    }
    r
}


// ───────────────────────────── searching ─────────────────────────────

/// `pat` occurs in `s` at index `i`.
pub open spec fn matches_at(s: Seq<char>, pat: Seq<char>, i: int) -> bool {
    0 <= i && i + pat.len() <= s.len() && s.subrange(i, i + pat.len()) == pat
}

/// `pat` occurs somewhere in `s` (`str::contains`).
pub open spec fn has_sub(s: Seq<char>, pat: Seq<char>) -> bool {
    exists|i: int| matches_at(s, pat, i)
}

/// `str::starts_with`.
pub open spec fn starts_with(s: Seq<char>, p: Seq<char>) -> bool {
    p.len() <= s.len() && s.take(p.len() as int) == p
}

/// `str::ends_with`.
pub open spec fn ends_with(s: Seq<char>, p: Seq<char>) -> bool {
    p.len() <= s.len() && s.skip(s.len() - p.len()) == p
}

/// Leftmost occurrence of `pat` in `s` at or after `i`.
pub open spec fn find_from(s: Seq<char>, pat: Seq<char>, i: int) -> Option<int>
    decreases s.len() + 1 - i,
{
    if i < 0 || i + pat.len() > s.len() {
        None
    } else if matches_at(s, pat, i) {
        Some(i)
    } else {
        find_from(s, pat, i + 1)
    }
}

/// `str::find`: the leftmost occurrence of `pat` in `s`.
pub open spec fn find(s: Seq<char>, pat: Seq<char>) -> Option<int> {
    find_from(s, pat, 0)
}

pub proof fn lemma_find_from(s: Seq<char>, pat: Seq<char>, i: int)
    requires
        0 <= i,
    ensures
        find_from(s, pat, i) matches Some(k) ==> {
            &&& i <= k
            &&& matches_at(s, pat, k)
            &&& forall|j: int| i <= j < k ==> !matches_at(s, pat, j)
        },
        find_from(s, pat, i) is None ==> forall|j: int| i <= j ==> !matches_at(s, pat, j),
    decreases s.len() + 1 - i,
{
    if i + pat.len() > s.len() {
    } else if matches_at(s, pat, i) {
    } else {
        lemma_find_from(s, pat, i + 1);
        if find_from(s, pat, i + 1) is None {
            assert forall|j: int| i <= j implies !matches_at(s, pat, j) by {
                if j == i {
                } else {
                    assert(i + 1 <= j);
                }
            }
        }
    }
}

pub proof fn lemma_find_some(s: Seq<char>, pat: Seq<char>)
    ensures
        find(s, pat) is Some <==> has_sub(s, pat),
        find(s, pat) matches Some(k) ==> matches_at(s, pat, k) && forall|j: int|
            0 <= j < k ==> !matches_at(s, pat, j),
{
    lemma_find_from(s, pat, 0);
    if has_sub(s, pat) {
        let w = choose|w: int| matches_at(s, pat, w);
        assert(0 <= w);
    }
}

/// Does `pat` occur in `s` at index `i`?
pub fn match_at(s: &[char], pat: &[char], i: usize) -> (b: bool)
    ensures
        b == matches_at(s@, pat@, i as int),
{
    if i > s.len() || pat.len() > s.len() - i {
        return false;
    }
    let mut k: usize = 0;
    while k < pat.len()
        invariant
            i + pat.len() <= s.len(),
            k <= pat.len(),
            forall|m: int| 0 <= m < k ==> s@[i + m] == pat@[m],
        decreases pat.len() - k,
    {
        if s[i + k] != pat[k] {
            assert(s@.subrange(i as int, i + pat.len())[k as int] != pat@[k as int]);
            return false;
        }
        k = k + 1;
    }
    assert(s@.subrange(i as int, i + pat.len()) =~= pat@);
    true
}

/// Leftmost occurrence of `pat` in `s` at or after `start`.
pub fn find_chars_from(s: &[char], pat: &[char], start: usize) -> (r: Option<usize>)
    ensures
        r matches Some(k) ==> find_from(s@, pat@, start as int) == Some(k as int),
        r is None ==> find_from(s@, pat@, start as int) is None,
{
    if pat.len() > s.len() {
        return None;
    }
    let last = s.len() - pat.len();
    if start > last {
        return None;
    }
    let mut i = start;
    loop
        invariant
            last == s.len() - pat.len(),
            start <= i <= last,
            find_from(s@, pat@, start as int) == find_from(s@, pat@, i as int),
        decreases last - i,
    {
        if match_at(s, pat, i) {
            return Some(i);
        }
        if i == last {
            assert(find_from(s@, pat@, i + 1) is None);
            return None;
        }
        i = i + 1;
    }
}

/// `str::find` on character slices.
pub fn find_chars(s: &[char], pat: &[char]) -> (r: Option<usize>)
    ensures
        r matches Some(k) ==> find(s@, pat@) == Some(k as int),
        r is None ==> find(s@, pat@) is None,
{
    find_chars_from(s, pat, 0)
}

/// `str::contains` on character slices.
pub fn contains_chars(s: &[char], pat: &[char]) -> (b: bool)
    ensures
        b == has_sub(s@, pat@),
{
    proof {
        lemma_find_some(s@, pat@);
    }
    find_chars(s, pat).is_some()
}

/// `str::contains` with a string-slice pattern.
pub fn contains_str(s: &[char], pat: &str) -> (b: bool)
    ensures
        b == has_sub(s@, pat@),
{
    let p = chars_of(pat);
    contains_chars(s, p.as_slice())
}

/// `str::starts_with` on character slices.
pub fn starts_with_chars(s: &[char], p: &[char]) -> (b: bool)
    ensures
        b == starts_with(s@, p@),
{
    let b = match_at(s, p, 0);
    proof {
        if b {
            assert(s@.take(p@.len() as int) == s@.subrange(0, p@.len() as int));
        }
        if starts_with(s@, p@) {
            assert(s@.take(p@.len() as int) == s@.subrange(0, p@.len() as int));
        }
    }
    b
}

/// `str::starts_with` with a string-slice pattern.
pub fn starts_with_str(s: &[char], p: &str) -> (b: bool)
    ensures
        b == starts_with(s@, p@),
{
    let pv = chars_of(p);
    starts_with_chars(s, pv.as_slice())
}

/// `str::ends_with` on character slices.
pub fn ends_with_chars(s: &[char], p: &[char]) -> (b: bool)
    ensures
        b == ends_with(s@, p@),
{
    if p.len() > s.len() {
        return false;
    }
    let b = match_at(s, p, s.len() - p.len());
    proof {
        assert(s@.skip(s@.len() - p@.len()) == s@.subrange(s@.len() - p@.len(), s@.len() as int));
    }
    b
}

/// `str::ends_with` with a string-slice pattern.
pub fn ends_with_str(s: &[char], p: &str) -> (b: bool)
    ensures
        b == ends_with(s@, p@),
{
    let pv = chars_of(p);
    ends_with_chars(s, pv.as_slice())
}


pub proof fn lemma_matches_shift(s: Seq<char>, pat: Seq<char>, pos: int, i: int)
    requires
        0 <= pos <= s.len(),
        0 <= i,
    ensures
        matches_at(s, pat, pos + i) == matches_at(s.skip(pos), pat, i),
{
    if matches_at(s.skip(pos), pat, i) {
        assert(s.subrange(pos + i, pos + i + pat.len()) =~= s.skip(pos).subrange(i, i + pat.len()));
    }
    if matches_at(s, pat, pos + i) {
        assert(s.subrange(pos + i, pos + i + pat.len()) =~= s.skip(pos).subrange(i, i + pat.len()));
    }
}

/// Searching `s` from `pos + i` is searching `s.skip(pos)` from `i`.
pub proof fn lemma_find_shift(s: Seq<char>, pat: Seq<char>, pos: int, i: int)
    requires
        0 <= pos <= s.len(),
        0 <= i,
    ensures
        find_from(s, pat, pos + i) == (match find_from(s.skip(pos), pat, i) {
            Some(k) => Some(k + pos),
            None => None::<int>,
        }),
    decreases s.len() + 1 - (pos + i),
{
    lemma_matches_shift(s, pat, pos, i);
    if pos + i + pat.len() > s.len() {
    } else if matches_at(s, pat, pos + i) {
    } else {
        lemma_find_shift(s, pat, pos, i + 1);
    }
}

// ───────────────────────────── split / join ─────────────────────────────

/// The character sequences of a sequence of character vectors.
pub open spec fn seqs_of(v: Seq<Vec<char>>) -> Seq<Seq<char>> {
    Seq::new(v.len(), |i: int| v[i]@)
}

/// `str::split` with a non-empty string pattern: the pieces between the
/// leftmost non-overlapping occurrences of `pat`.
pub open spec fn split(s: Seq<char>, pat: Seq<char>) -> Seq<Seq<char>>
    decreases s.len(),
{
    if pat.len() == 0 {
        seq![s]
    } else {
        match find(s, pat) {
            None => seq![s],
            Some(i) => {
                if 0 <= i && i + pat.len() <= s.len() {
                    seq![s.take(i)] + split(s.skip(i + pat.len()), pat)
                } else {
                    seq![s]
                }
            },
        }
    }
}

/// Pieces of `s` joined with `sep` in between (`[T]::join`).
pub open spec fn join(parts: Seq<Seq<char>>, sep: Seq<char>) -> Seq<char>
    decreases parts.len(),
{
    if parts.len() == 0 {
        Seq::empty()
    } else if parts.len() == 1 {
        parts[0]
    } else {
        join(parts.drop_last(), sep) + sep + parts.last()
    }
}

/// `str::replace`: every leftmost non-overlapping occurrence of `from`
/// (non-empty) replaced by `to`.
pub open spec fn replace(s: Seq<char>, from: Seq<char>, to: Seq<char>) -> Seq<char> {
    join(split(s, from), to)
}

pub proof fn lemma_split_step(s: Seq<char>, pat: Seq<char>, pos: int)
    requires
        pat.len() > 0,
        0 <= pos <= s.len(),
    ensures
        find_from(s, pat, pos) is None ==> split(s.skip(pos), pat) == seq![s.skip(pos)],
        find_from(s, pat, pos) matches Some(k) ==> {
            &&& pos <= k
            &&& k + pat.len() <= s.len()
            &&& split(s.skip(pos), pat) == seq![s.subrange(pos, k)] + split(
                s.skip(k + pat.len()),
                pat,
            )
        },
{
    lemma_find_shift(s, pat, pos, 0);
    lemma_find_from(s, pat, pos);
    let t = s.skip(pos);
    lemma_find_from(t, pat, 0);
    match find_from(s, pat, pos) {
        None => {},
        Some(k) => {
            assert(find(t, pat) == Some(k - pos));
            assert(t.take(k - pos) =~= s.subrange(pos, k));
            assert(t.skip(k - pos + pat.len()) =~= s.skip(k + pat.len()));
        },
    }
}

/// `str::split` on character slices (non-empty pattern).
pub fn split_chars(s: &[char], pat: &[char]) -> (parts: Vec<Vec<char>>)
    requires
        pat.len() > 0,
    ensures
        seqs_of(parts@) == split(s@, pat@),
{
    let mut parts: Vec<Vec<char>> = Vec::new();
    let mut pos: usize = 0;
    assert(s@.skip(0) =~= s@);
    assert(seqs_of(parts@) + split(s@, pat@) =~= split(s@, pat@));
    loop
        invariant
            pat.len() > 0,
            pos <= s.len(),
            seqs_of(parts@) + split(s@.skip(pos as int), pat@) == split(s@, pat@),
        decreases s.len() - pos,
    {
        proof {
            lemma_split_step(s@, pat@, pos as int);
        }
        match find_chars_from(s, pat, pos) {
            None => {
                let piece = slice_range(s, pos, s.len());
                let ghost old_parts = seqs_of(parts@);
                parts.push(piece);
                assert(seqs_of(parts@) =~= old_parts.push(piece@));
                assert(s@.skip(pos as int) =~= s@.subrange(pos as int, s@.len() as int));
                assert(seqs_of(parts@) =~= old_parts + split(s@.skip(pos as int), pat@));
                return parts;
            },
            Some(k) => {
                let piece = slice_range(s, pos, k);
                let ghost old_parts = seqs_of(parts@);
                parts.push(piece);
                assert(seqs_of(parts@) =~= old_parts.push(piece@));
                assert(seq![piece@] + split(s@.skip(k + pat.len()), pat@) == split(s@.skip(pos as int), pat@));
                assert(old_parts.push(piece@) + split(s@.skip(k + pat.len()), pat@) =~= old_parts + (seq![piece@] + split(s@.skip(k + pat.len()), pat@)));
                pos = k + pat.len();
            },
        }
    }
}

/// `str::split` with a string-slice pattern.
pub fn split_str(s: &[char], pat: &str) -> (parts: Vec<Vec<char>>)
    requires
        pat@.len() > 0,
    ensures
        seqs_of(parts@) == split(s@, pat@),
{
    let p = chars_of(pat);
    split_chars(s, p.as_slice())
}

/// `[T]::join` on character vectors.
pub fn join_chars(parts: &[Vec<char>], sep: &[char]) -> (r: Vec<char>)
    ensures
        r@ == join(seqs_of(parts@), sep@),
{
    let mut r: Vec<char> = Vec::new();
    let mut i: usize = 0;
    while i < parts.len()
        invariant
            i <= parts.len(),
            r@ == join(seqs_of(parts@).take(i as int), sep@),
        decreases parts.len() - i,
    {
        let ghost prev = seqs_of(parts@).take(i as int);
        if i > 0 {
            extend_chars(&mut r, sep);
        }
        extend_chars(&mut r, parts[i].as_slice());
        proof {
            let next = seqs_of(parts@).take(i + 1);
            assert(next.drop_last() =~= prev);
            assert(next.last() == parts[i as int]@);
            if i == 0 {
                assert(next =~= seq![parts[0]@]);
            }
        }
        i = i + 1;
    }
    assert(seqs_of(parts@).take(parts.len() as int) =~= seqs_of(parts@));
    r
}

/// `[T]::join` with a string-slice separator.
pub fn join_str(parts: &[Vec<char>], sep: &str) -> (r: Vec<char>)
    ensures
        r@ == join(seqs_of(parts@), sep@),
{
    let sv = chars_of(sep);
    join_chars(parts, sv.as_slice())
}

/// `str::replace` on character slices (non-empty pattern).
pub fn replace_chars(s: &[char], from: &[char], to: &[char]) -> (r: Vec<char>)
    requires
        from.len() > 0,
    ensures
        r@ == replace(s@, from@, to@),
{
    let parts = split_chars(s, from);
    join_chars(parts.as_slice(), to)
}

/// `str::replace` with string-slice arguments (non-empty pattern).
pub fn replace_str(s: &[char], from: &str, to: &str) -> (r: Vec<char>)
    requires
        from@.len() > 0,
    ensures
        r@ == replace(s@, from@, to@),
{
    let f = chars_of(from);
    let t = chars_of(to);
    replace_chars(s, f.as_slice(), t.as_slice())
}

// ───────────────────────────── lines ─────────────────────────────

/// A line with one trailing carriage return removed.
pub open spec fn strip_cr(p: Seq<char>) -> Seq<char> {
    if p.len() > 0 && p.last() == '\r' {
        p.drop_last()
    } else {
        p
    }
}

/// `str::lines`: split at `\n`, a `\r` before a `\n` dropped, and no
/// final empty line after a trailing `\n` (an empty string has no lines).
pub open spec fn lines(s: Seq<char>) -> Seq<Seq<char>> {
    let pieces = split(s, seq!['\n']);
    let ended = pieces.drop_last().map_values(|p: Seq<char>| strip_cr(p));
    if pieces.last().len() == 0 {
        ended
    } else {
        ended.push(pieces.last())
    }
}

pub proof fn lemma_split_nonempty(s: Seq<char>, pat: Seq<char>)
    ensures
        split(s, pat).len() >= 1,
    decreases s.len(),
{
    if pat.len() > 0 {
        match find(s, pat) {
            None => {},
            Some(i) => {
                if 0 <= i && i + pat.len() <= s.len() {
                    lemma_split_nonempty(s.skip(i + pat.len()), pat);
                }
            },
        }
    }
}

/// `str::lines` on character slices.
pub fn lines_chars(s: &[char]) -> (r: Vec<Vec<char>>)
    ensures
        seqs_of(r@) == lines(s@),
{
    let nl = vec!['\n'];
    assert(nl@ == seq!['\n']);
    let pieces = split_chars(s, nl.as_slice());
    proof {
        lemma_split_nonempty(s@, seq!['\n']);
    }
    let n = pieces.len();
    let mut r: Vec<Vec<char>> = Vec::new();
    let mut i: usize = 0;
    while i + 1 < n
        invariant
            n == pieces.len(),
            n >= 1,
            i + 1 <= n,
            seqs_of(pieces@) == split(s@, seq!['\n']),
            seqs_of(r@) == seqs_of(pieces@).take(i as int).map_values(|p: Seq<char>| strip_cr(p)),
        decreases n - i,
    {
        let p = &pieces[i];
        let ghost prev = seqs_of(r@);
        if p.len() > 0 && p[p.len() - 1] == '\r' {
            let q = slice_range(p.as_slice(), 0, p.len() - 1);
            assert(q@ =~= strip_cr(p@));
            r.push(q);
        } else {
            let q = slice_range(p.as_slice(), 0, p.len());
            assert(q@ =~= strip_cr(p@));
            r.push(q);
        }
        proof {
            assert(seqs_of(pieces@)[i as int] == pieces[i as int]@);
            assert(seqs_of(r@) =~= prev.push(strip_cr(seqs_of(pieces@)[i as int])));
            assert(seqs_of(pieces@).take(i + 1).map_values(|p: Seq<char>| strip_cr(p)) =~= seqs_of(pieces@).take(i as int).map_values(|p: Seq<char>| strip_cr(p)).push(strip_cr(seqs_of(pieces@)[i as int])));
        }
        i = i + 1;
    }
    proof {
        assert(seqs_of(pieces@).take(i as int) =~= seqs_of(pieces@).drop_last());
    }
    let last = &pieces[n - 1];
    if last.len() > 0 {
        let q = slice_range(last.as_slice(), 0, last.len());
        assert(q@ =~= last@);
        let ghost prev = seqs_of(r@);
        r.push(q);
        assert(seqs_of(r@) =~= prev.push(seqs_of(pieces@).last()));
    }
    r
}

// ───────────────────────────── numbers ─────────────────────────────

/// The decimal digit for `d < 10`.
pub open spec fn digit_char(d: nat) -> char {
    if d == 0 { '0' } else if d == 1 { '1' } else if d == 2 { '2' } else if d == 3 { '3' }
    else if d == 4 { '4' } else if d == 5 { '5' } else if d == 6 { '6' } else if d == 7 { '7' }
    else if d == 8 { '8' } else { '9' }
}

/// Decimal text of a natural number (what `{}` prints for unsigned integers).
pub open spec fn dec(n: nat) -> Seq<char>
    decreases n,
{
    if n < 10 {
        seq![digit_char(n)]
    } else {
        dec(n / 10).push(digit_char(n % 10))
    }
}

/// Decimal text of an integer (what `{}` prints for signed integers).
pub open spec fn dec_int(n: int) -> Seq<char> {
    if n < 0 {
        seq!['-'] + dec((-n) as nat)
    } else {
        dec(n as nat)
    }
}

fn digit(d: u64) -> (c: char)
    requires
        d < 10,
    ensures
        c == digit_char(d as nat),
{
    if d == 0 { '0' } else if d == 1 { '1' } else if d == 2 { '2' } else if d == 3 { '3' }
    else if d == 4 { '4' } else if d == 5 { '5' } else if d == 6 { '6' } else if d == 7 { '7' }
    else if d == 8 { '8' } else { '9' }
}

/// Decimal text of an unsigned integer.
pub fn fmt_u64(n: u64) -> (r: Vec<char>)
    ensures
        r@ == dec(n as nat),
    decreases n,
{
    if n < 10 {
        let mut r = Vec::new();
        r.push(digit(n));
        r
    } else {
        let mut r = fmt_u64(n / 10);
        r.push(digit(n % 10));
        r
    }
}

/// Decimal text of a `usize`.
pub fn fmt_usize(n: usize) -> (r: Vec<char>)
    ensures
        r@ == dec(n as nat),
{
    fmt_u64(n as u64)
}

/// Decimal text of a signed integer.
pub fn fmt_i64(n: i64) -> (r: Vec<char>)
    ensures
        r@ == dec_int(n as int),
{
    if n < 0 {
        let m: u64 = if n == i64::MIN { 9223372036854775808u64 } else { (-n) as u64 };
        let mut r = Vec::new();
        r.push('-');
        let d = fmt_u64(m);
        extend_chars(&mut r, d.as_slice());
        r
    } else {
        fmt_u64(n as u64)
    }
}


// ───────────────────────────── byte length ─────────────────────────────

/// The number of bytes of the UTF-8 encoding of a character (`char::len_utf8`).
pub open spec fn char_width(c: char) -> nat {
    let u = c as u32;
    if u < 0x80 {
        1
    } else if u < 0x800 {
        2
    } else if u < 0x10000 {
        3
    } else {
        4
    }
}

/// The byte length of a string (`str::len`): the length of its UTF-8 encoding.
pub open spec fn utf8_len(s: Seq<char>) -> nat {
    vstd::utf8::encode_utf8(s).len()
}

pub proof fn lemma_encode_utf8_concat(a: Seq<char>, b: Seq<char>)
    ensures
        vstd::utf8::encode_utf8(a + b) == vstd::utf8::encode_utf8(a) + vstd::utf8::encode_utf8(b),
    decreases a.len(),
{
    if a.len() == 0 {
        assert(a + b =~= b);
        assert(vstd::utf8::encode_utf8(a) =~= Seq::<u8>::empty());
        assert(vstd::utf8::encode_utf8(a) + vstd::utf8::encode_utf8(b) =~= vstd::utf8::encode_utf8(b));
    } else {
        assert((a + b).drop_first() =~= a.drop_first() + b);
        lemma_encode_utf8_concat(a.drop_first(), b);
        assert((a + b)[0] == a[0]);
        assert(vstd::utf8::encode_utf8(a + b) =~= vstd::utf8::encode_scalar(a[0] as u32) + (
        vstd::utf8::encode_utf8(a.drop_first()) + vstd::utf8::encode_utf8(b)));
    }
}

pub proof fn lemma_utf8_len_push(s: Seq<char>, c: char)
    ensures
        utf8_len(s.push(c)) == utf8_len(s) + char_width(c),
{
    lemma_encode_utf8_concat(s, seq![c]);
    assert(s.push(c) =~= s + seq![c]);
    assert(seq![c].drop_first() =~= Seq::<char>::empty());
    assert(vstd::utf8::encode_utf8(seq![c]) =~= vstd::utf8::encode_scalar(c as u32) + vstd::utf8::encode_utf8(Seq::<char>::empty()));
}

pub fn width_of(c: char) -> (w: usize)
    ensures
        w == char_width(c),
{
    let u = c as u32;
    if u < 0x80 {
        1
    } else if u < 0x800 {
        2
    } else if u < 0x10000 {
        3
    } else {
        4
    }
}

/// `s.len() >= k` for the byte length of `s`.
pub fn utf8_len_at_least(s: &[char], k: usize) -> (b: bool)
    ensures
        b == (utf8_len(s@) >= k),
{
    utf8_len_capped(s, k) >= k
}

/// The byte length of a prefix is at most the byte length of the whole.
pub proof fn lemma_utf8_prefix_le(s: Seq<char>, i: int)
    requires
        0 <= i <= s.len(),
    ensures
        utf8_len(s.take(i)) <= utf8_len(s),
{
    lemma_encode_utf8_concat(s.take(i), s.skip(i));
    assert(s.take(i) + s.skip(i) =~= s);
}

/// The byte length of `s`, or `cap` if it is larger.
pub fn utf8_len_capped(s: &[char], cap: usize) -> (n: usize)
    ensures
        n == if utf8_len(s@) < cap { utf8_len(s@) } else { cap as nat },
{
    if cap == 0 {
        return 0;
    }
    let mut total: usize = 0;
    let mut i: usize = 0;
    assert(s@.take(0) =~= Seq::<char>::empty());
    assert(vstd::utf8::encode_utf8(Seq::<char>::empty()) =~= Seq::<u8>::empty());
    while i < s.len()
        invariant
            i <= s.len(),
            total == utf8_len(s@.take(i as int)),
            total < cap,
        decreases s.len() - i,
    {
        proof {
            assert(s@.take(i + 1) =~= s@.take(i as int).push(s@[i as int]));
            lemma_utf8_len_push(s@.take(i as int), s@[i as int]);
        }
        let w = width_of(s[i]);
        if w >= cap - total {
            proof {
                lemma_utf8_prefix_le(s@, i + 1);
            }
            return cap;
        }
        total = total + w;
        i = i + 1;
    }
    assert(s@.take(s.len() as int) =~= s@);
    total
}

// ───────────────────────────── split on a character class ─────────────────────────────

/// `str::split` with a character predicate: the pieces between the
/// characters on which `sep` holds (one piece more than separators).
pub open spec fn split_where(s: Seq<char>, sep: spec_fn(char) -> bool) -> Seq<Seq<char>>
    decreases s.len(),
{
    if s.len() == 0 {
        seq![Seq::<char>::empty()]
    } else {
        let prev = split_where(s.drop_last(), sep);
        if sep(s.last()) {
            prev.push(Seq::<char>::empty())
        } else {
            prev.update(prev.len() - 1, prev.last().push(s.last()))
        }
    }
}

pub proof fn lemma_split_where_len(s: Seq<char>, sep: spec_fn(char) -> bool)
    ensures
        1 <= split_where(s, sep).len() <= s.len() + 1,
    decreases s.len(),
{
    if s.len() > 0 {
        lemma_split_where_len(s.drop_last(), sep);
    }
}

/// `==` on string slices.
pub fn str_eq(s: &str, lit: &str) -> (b: bool)
    ensures
        b == (s@ == lit@),
{
    let a = chars_of(s);
    let l = chars_of(lit);
    if a.len() != l.len() {
        return false;
    }
    let mut i: usize = 0;
    while i < a.len()
        invariant
            i <= a.len(),
            a.len() == l.len(),
            a@ == s@,
            l@ == lit@,
            forall|k: int| 0 <= k < i ==> a@[k] == l@[k],
        decreases a.len() - i,
    {
        if a[i] != l[i] {
            return false;
        }
        i = i + 1;
    }
    assert(a@ =~= l@);
    true
}


// ───────────────────────────── facts about trim ─────────────────────────────

/// A trimmed string that is not empty starts and ends with a non-whitespace
/// character.
pub proof fn lemma_trim_ends(s: Seq<char>)
    ensures
        trim(s).len() > 0 ==> !is_ws(trim(s)[0]) && !is_ws(trim(s).last()),
{
    let f = first_non_ws_from(s, 0);
    lemma_first_non_ws_bounds(s, 0);
    let t = s.skip(f);
    lemma_last_non_ws_bounds(t, t.len() as int);
    if trim(s).len() > 0 {
        assert(trim(s)[0] == s[f]);
    }
}

/// A string that starts and ends with non-whitespace is its own trim.
pub proof fn lemma_trim_fixed(s: Seq<char>)
    requires
        s.len() > 0,
        !is_ws(s[0]),
        !is_ws(s.last()),
    ensures
        trim(s) == s,
{
    assert(first_non_ws_from(s, 0) == 0);
    assert(s.skip(0) =~= s);
    assert(last_non_ws_end(s, s.len() as int) == s.len());
    assert(s.take(s.len() as int) =~= s);
}

/// Trimming never adds bytes.
pub proof fn lemma_trim_utf8_le(s: Seq<char>)
    ensures
        utf8_len(trim(s)) <= utf8_len(s),
{
    let f = first_non_ws_from(s, 0);
    lemma_first_non_ws_bounds(s, 0);
    let t = s.skip(f);
    lemma_last_non_ws_bounds(t, t.len() as int);
    let e = last_non_ws_end(t, t.len() as int);
    lemma_encode_utf8_concat(s.take(f), t);
    assert(s.take(f) + t =~= s);
    lemma_encode_utf8_concat(t.take(e), t.skip(e));
    assert(t.take(e) + t.skip(e) =~= t);
}

/// Byte length of a concatenation.
pub proof fn lemma_utf8_len_concat(a: Seq<char>, b: Seq<char>)
    ensures
        utf8_len(a + b) == utf8_len(a) + utf8_len(b),
{
    lemma_encode_utf8_concat(a, b);
}

/// Whether two character slices are equal.
pub fn same_chars(a: &[char], b: &[char]) -> (r: bool)
    ensures
        r == (a@ == b@),
{
    if a.len() != b.len() {
        return false;
    }
    let mut i: usize = 0;
    while i < a.len()
        invariant
            i <= a.len(),
            a.len() == b.len(),
            forall|k: int| 0 <= k < i ==> a@[k] == b@[k],
        decreases a.len() - i,
    {
        if a[i] != b[i] {
            return false;
        }
        i = i + 1;
    }
    assert(a@ =~= b@);
    true
}

} // verus!
