//! Character-level helpers shared by the codec and the catalog.

use vstd::prelude::*;

verus! {

/// ASCII lower-case mapping of one character.
pub open spec fn ascii_lower(c: char) -> char {
    if 'A' <= c && c <= 'Z' {
        ((c as u32) + 32) as char
    } else {
        c
    }
}

/// ASCII upper-case mapping of one character.
pub open spec fn ascii_upper(c: char) -> char {
    if 'a' <= c && c <= 'z' {
        ((c as u32) - 32) as char
    } else {
        c
    }
}

/// Every character mapped to its ASCII lower-case form.
pub open spec fn lower_seq(s: Seq<char>) -> Seq<char> {
    s.map_values(|c: char| ascii_lower(c))
}

pub open spec fn is_digit(c: char) -> bool {
    '0' <= c && c <= '9'
}

/// `t[from..to]` is a range of `t` made of ASCII digits only.
pub open spec fn digits_at(t: Seq<char>, from: int, to: int) -> bool {
    &&& 0 <= from <= to <= t.len()
    &&& forall|i: int| from <= i < to ==> is_digit(#[trigger] t[i])
}

/// Relies on char::to_ascii_lowercase: 'A'..='Z' become 'a'..='z', every other character is kept.
pub assume_specification[ char::to_ascii_lowercase ](c: &char) -> (r: char)
    ensures
        r == ascii_lower(*c),
;

/// Relies on char::to_ascii_uppercase: 'a'..='z' become 'A'..='Z', every other character is kept.
pub assume_specification[ char::to_ascii_uppercase ](c: &char) -> (r: char)
    ensures
        r == ascii_upper(*c),
;

/// Relies on str::chars: the characters of `s`, in order.
#[verifier::external_body]
pub(crate) fn chars_of(s: &str) -> (r: Vec<char>)
    ensures
        r@ == s@,
{
    s.chars().collect()
}

/// Relies on String's FromIterator<&char>: the string made of the characters of `v`, in order.
#[verifier::external_body]
pub(crate) fn string_of(v: &Vec<char>) -> (r: String)
    ensures
        r@ == v@,
{
    v.iter().collect()
}

pub(crate) fn is_ascii_digit(c: char) -> (r: bool)
    ensures
        r == is_digit(c),
{
    '0' <= c && c <= '9'
}

/// Appends `v[from..to]` to `out`.
pub(crate) fn push_range(out: &mut Vec<char>, v: &Vec<char>, from: usize, to: usize)
    requires
        from <= to <= v.len(),
    ensures
        final(out)@ == old(out)@ + v@.subrange(from as int, to as int),
{
    let mut i: usize = from;
    while i < to
        invariant
            from <= i <= to,
            to <= v.len(),
            out@ == old(out)@ + v@.subrange(from as int, i as int),
        decreases to - i,
    {
        assert(old(out)@ + v@.subrange(from as int, i + 1) =~= (old(out)@ + v@.subrange(
            from as int,
            i as int,
        )).push(v@[i as int]));
        out.push(v[i]);
        i += 1;
    }
}

/// Appends all of `v` to `out`.
pub(crate) fn push_all(out: &mut Vec<char>, v: &Vec<char>)
    ensures
        final(out)@ == old(out)@ + v@,
{
    push_range(out, v, 0, v.len());
    assert(v@.subrange(0, v@.len() as int) =~= v@);
}

/// Appends the ASCII lower-case form of each character of `v` to `out`.
pub(crate) fn push_lowered(out: &mut Vec<char>, v: &Vec<char>)
    ensures
        final(out)@ == old(out)@ + lower_seq(v@),
{
    let mut i: usize = 0;
    while i < v.len()
        invariant
            i <= v.len(),
            out@ == old(out)@ + lower_seq(v@.subrange(0, i as int)),
        decreases v.len() - i,
    {
        let c = v[i].to_ascii_lowercase();
        assert(lower_seq(v@.subrange(0, i + 1)) =~= lower_seq(v@.subrange(0, i as int)).push(c));
        assert(old(out)@ + lower_seq(v@.subrange(0, i + 1)) =~= (old(out)@ + lower_seq(
            v@.subrange(0, i as int),
        )).push(c));
        out.push(c);
        i += 1;
    }
    assert(v@.subrange(0, v@.len() as int) =~= v@);
}

/// Whether two character sequences are equal.
pub(crate) fn same_chars(a: &Vec<char>, b: &Vec<char>) -> (r: bool)
    ensures
        r == (a@ == b@),
{
    if a.len() != b.len() {
        return false;
    }
    let mut i: usize = 0;
    while i < a.len()
        invariant
            i <= a.len(),
            a.len() == b.len(),
            forall|j: int| 0 <= j < i ==> a@[j] == b@[j],
        decreases a.len() - i,
    {
        if a[i] != b[i] {
            return false;
        }
        i += 1;
    }
    assert(a@ =~= b@);
    true
}

// ---------------------------------------------------------------- camel case

/// What `str::trim` leaves of `s`: `s` without leading and trailing Unicode
/// white space.
pub uninterp spec fn trimmed(s: Seq<char>) -> Seq<char>;

/// Relies on str::trim: the result depends on the characters of `s` alone,
/// and the empty string stays empty.
#[verifier::external_body]
fn trim(s: &str) -> (r: &str)
    ensures
        r@ == trimmed(s@),
        s@.len() == 0 ==> r@.len() == 0,
{
    s.trim()
}

/// A word starts at `i` when `i` is the first position or follows a space.
pub open spec fn word_start(t: Seq<char>, i: int) -> bool {
    i == 0 || t[i - 1] == ' '
}

/// Camel case of `t[0..i]`: spaces dropped, the first character of each
/// word upper-cased (ASCII), every other character kept.
pub open spec fn camel_prefix(t: Seq<char>, i: int) -> Seq<char>
    decreases i,
{
    if i <= 0 {
        seq![]
    } else if t[i - 1] == ' ' {
        camel_prefix(t, i - 1)
    } else if word_start(t, i - 1) {
        camel_prefix(t, i - 1).push(ascii_upper(t[i - 1]))
    } else {
        camel_prefix(t, i - 1).push(t[i - 1])
    }
}

pub open spec fn camel(t: Seq<char>) -> Seq<char> {
    camel_prefix(t, t.len() as int)
}

/// Joins the space-separated words of `text` with the first character of
/// each upper-cased, keeping the rest as it is.
pub fn camelcase_words(text: &str) -> (r: String)
    ensures
        r@ == camel(text@),
{
    let t = chars_of(text);
    let mut out: Vec<char> = Vec::new();
    let mut start_of_word = true;
    let mut i: usize = 0;
    while i < t.len()
        invariant
            i <= t.len(),
            out@ == camel_prefix(t@, i as int),
            start_of_word == word_start(t@, i as int),
        decreases t.len() - i,
    {
        let c = t[i];
        if c == ' ' {
            start_of_word = true;
        } else if start_of_word {
            out.push(c.to_ascii_uppercase());
            start_of_word = false;
        } else {
            out.push(c);
        }
        i += 1;
    }
    string_of(&out)
}

/// `text` trimmed of surrounding white space, then camel-cased word by word.
pub fn to_camelcase(text: &str) -> (r: String)
    ensures
        r@ == camel(trimmed(text@)),
{
    camelcase_words(trim(text))
}

} // verus!
