//! Unicode case mapping and character classes, taken from std.
use vstd::prelude::*;
use crate::text::{chars_of, string_of};

verus! {

/// What `str::to_lowercase` returns for a string (Unicode lowercase mapping,
/// including the context-dependent final sigma rule).
pub uninterp spec fn lowercase(s: Seq<char>) -> Seq<char>;

/// What `str::to_uppercase` returns for a string (Unicode uppercase mapping).
pub uninterp spec fn uppercase(s: Seq<char>) -> Seq<char>;

/// What `char::is_alphanumeric` returns (Unicode `Alphabetic` or `Numeric`).
pub uninterp spec fn is_alnum(c: char) -> bool;

/// A character of the ASCII range.
pub open spec fn is_ascii_char(c: char) -> bool {
    (c as u32) < 128
}

/// Every character of `s` is ASCII.
pub open spec fn all_ascii(s: Seq<char>) -> bool {
    forall|i: int| 0 <= i < s.len() ==> is_ascii_char(#[trigger] s[i])
}

/// `s` with its ASCII letters lowercased (`str::to_ascii_lowercase`).
pub open spec fn ascii_lowercase(s: Seq<char>) -> Seq<char> {
    s.map_values(|c: char| ascii_lower(c))
}

/// `s` with its ASCII letters uppercased (`str::to_ascii_uppercase`).
pub open spec fn ascii_uppercase(s: Seq<char>) -> Seq<char> {
    s.map_values(|c: char| ascii_upper(c))
}

/// An ASCII letter or digit.
pub open spec fn is_ascii_alnum(c: char) -> bool {
    ('a' <= c && c <= 'z') || ('A' <= c && c <= 'Z') || ('0' <= c && c <= '9')
}

/// `str::to_lowercase`: the result is the name `lowercase` applied to the
/// argument. Of ASCII text it is the ASCII lowercase (std: `to_lowercase`
/// lowercases ASCII letters as `to_ascii_lowercase` does, and more); nothing
/// else is claimed of it.
#[verifier::external_body]
fn str_to_lowercase(s: &str) -> (r: String)
    ensures
        r@ == lowercase(s@),
        all_ascii(s@) ==> r@ == ascii_lowercase(s@),
{
    s.to_lowercase()
}

/// `str::to_uppercase`: the result is the name `uppercase` applied to the
/// argument. Of ASCII text it is the ASCII uppercase; nothing else is
/// claimed of it.
#[verifier::external_body]
fn str_to_uppercase(s: &str) -> (r: String)
    ensures
        r@ == uppercase(s@),
        all_ascii(s@) ==> r@ == ascii_uppercase(s@),
{
    s.to_uppercase()
}

/// `char::is_alphanumeric`: the result is the name `is_alnum` applied to the
/// argument; for an ASCII character it says whether it is a letter or a digit.
#[verifier::external_body]
pub(crate) fn char_is_alphanumeric(c: char) -> (b: bool)
    ensures
        b == is_alnum(c),
        is_ascii_char(c) ==> (b <==> is_ascii_alnum(c)),
{
    c.is_alphanumeric()
}

/// Lowercase of a character slice.
pub fn lower_chars(s: &[char]) -> (r: Vec<char>)
    ensures
        r@ == lowercase(s@),
        all_ascii(s@) ==> r@ == ascii_lowercase(s@),
{
    let st = string_of(s);
    let l = str_to_lowercase(st.as_str());
    chars_of(l.as_str())
}

/// Lowercase of a string slice, as characters.
pub fn lower_str(s: &str) -> (r: Vec<char>)
    ensures
        r@ == lowercase(s@),
{
    let l = str_to_lowercase(s);
    chars_of(l.as_str())
}

/// Uppercase of a character slice.
pub fn upper_chars(s: &[char]) -> (r: Vec<char>)
    ensures
        r@ == uppercase(s@),
        all_ascii(s@) ==> r@ == ascii_uppercase(s@),
{
    let st = string_of(s);
    let u = str_to_uppercase(st.as_str());
    chars_of(u.as_str())
}

/// ASCII lowercase of one character (`char::to_ascii_lowercase`).
pub open spec fn ascii_lower(c: char) -> char {
    if 'A' <= c && c <= 'Z' {
        ((c as u32) + 32) as char
    } else {
        c
    }
}

/// ASCII uppercase of one character (`char::to_ascii_uppercase`).
pub open spec fn ascii_upper(c: char) -> char {
    if 'a' <= c && c <= 'z' {
        ((c as u32) - 32) as char
    } else {
        c
    }
}

pub fn to_ascii_upper(c: char) -> (r: char)
    ensures
        r == ascii_upper(c),
{
    if 'a' <= c && c <= 'z' {
        let u = ((c as u32) - 32) as u8;
        u as char
    } else {
        c
    }
}

/// The ASCII uppercase of a character slice.
pub fn ascii_upper_chars(s: &[char]) -> (r: Vec<char>)
    ensures
        r@ == ascii_uppercase(s@),
{
    let mut r: Vec<char> = Vec::new();
    let mut i: usize = 0;
    while i < s.len()
        invariant
            i <= s.len(),
            r@ =~= ascii_uppercase(s@.take(i as int)),
        decreases s.len() - i,
    {
        r.push(to_ascii_upper(s[i]));
        assert(ascii_uppercase(s@.take(i + 1)) =~= ascii_uppercase(s@.take(i as int)).push(ascii_upper(s@[i as int])));
        i = i + 1;
    }
    assert(s@.take(s.len() as int) =~= s@);
    r
}

/// The case fold of one character used to compare names: its lowercase when
/// that is a single character (`"É"` → `"é"`), the character itself when it
/// lowercases to several (`"İ"`).
pub open spec fn fold_char(c: char) -> char {
    let l = lowercase(seq![c]);
    if l.len() == 1 {
        l[0]
    } else {
        c
    }
}

/// `s` with every character case-folded; it has the length of `s`.
pub open spec fn fold_lower(s: Seq<char>) -> Seq<char> {
    s.map_values(|c: char| fold_char(c))
}

/// Case-folds a character slice, one character at a time.
pub fn fold_lower_chars(s: &[char]) -> (r: Vec<char>)
    ensures
        r@ == fold_lower(s@),
        all_ascii(s@) ==> r@ == ascii_lowercase(s@),
{
    let mut r: Vec<char> = Vec::new();
    let mut i: usize = 0;
    while i < s.len()
        invariant
            i <= s.len(),
            r@ =~= fold_lower(s@.take(i as int)),
            all_ascii(s@) ==> r@ =~= ascii_lowercase(s@.take(i as int)),
        decreases s.len() - i,
    {
        let mut one: Vec<char> = Vec::new();
        one.push(s[i]);
        assert(one@ =~= seq![s@[i as int]]);
        assert(all_ascii(s@) ==> all_ascii(one@));
        let l = lower_chars(one.as_slice());
        assert(all_ascii(s@) ==> l@ =~= seq![ascii_lower(s@[i as int])]);
        let f = if l.len() == 1 {
            l[0]
        } else {
            s[i]
        };
        r.push(f);
        assert(fold_lower(s@.take(i + 1)) =~= fold_lower(s@.take(i as int)).push(fold_char(s@[i as int])));
        assert(ascii_lowercase(s@.take(i + 1)) =~= ascii_lowercase(s@.take(i as int)).push(ascii_lower(s@[i as int])));
        i = i + 1;
    }
    assert(s@.take(s.len() as int) =~= s@);
    r
}

/// `str::eq_ignore_ascii_case`.
pub open spec fn eq_ignore_ascii_case(a: Seq<char>, b: Seq<char>) -> bool {
    a.len() == b.len() && forall|i: int| 0 <= i < a.len() ==> ascii_lower(a[i]) == ascii_lower(b[i])
}

pub fn to_ascii_lower(c: char) -> (r: char)
    ensures
        r == ascii_lower(c),
{
    if 'A' <= c && c <= 'Z' {
        let u = ((c as u32) + 32) as u8;
        u as char
    } else {
        c
    }
}

/// `str::eq_ignore_ascii_case` on character slices.
pub fn eq_ignore_case_chars(a: &[char], b: &[char]) -> (r: bool)
    ensures
        r == eq_ignore_ascii_case(a@, b@),
{
    if a.len() != b.len() {
        return false;
    }
    let mut i: usize = 0;
    while i < a.len()
        invariant
            a.len() == b.len(),
            i <= a.len(),
            forall|k: int| 0 <= k < i ==> ascii_lower(a@[k]) == ascii_lower(b@[k]),
        decreases a.len() - i,
    {
        if to_ascii_lower(a[i]) != to_ascii_lower(b[i]) {
            return false;
        }
        i = i + 1;
    }
    true
}

/// `str::eq_ignore_ascii_case` on strings.
pub fn eq_ignore_case(a: &str, b: &str) -> (r: bool)
    ensures
        r == eq_ignore_ascii_case(a@, b@),
{
    let av = chars_of(a);
    let bv = chars_of(b);
    eq_ignore_case_chars(av.as_slice(), bv.as_slice())
}

} // verus!
