//! The filename codec: a stem `{date}_{institution}_{name}_{page}` decoded into
//! an identity record, and an identity rendered back into a file name.

use vstd::prelude::*;
use crate::text::{
    ascii_lower, ascii_upper, chars_of, digits_at, is_ascii_digit, is_digit, lower_seq,
    push_all, push_lowered, push_range, same_chars, string_of,
};

verus! {

// ---------------------------------------------------------------- dates

/// `YYYY-MM-DD` at the start of `t`.
pub open spec fn hyphenated_date(t: Seq<char>) -> bool {
    &&& t.len() >= 10
    &&& digits_at(t, 0, 4)
    &&& t[4] == '-'
    &&& digits_at(t, 5, 7)
    &&& t[7] == '-'
    &&& digits_at(t, 8, 10)
}

/// `YYYYMMDD` at the start of `t`.
pub open spec fn compact_date(t: Seq<char>) -> bool {
    t.len() >= 8 && digits_at(t, 0, 8)
}

/// `YYYY` at the start of `t`.
pub open spec fn year_only_date(t: Seq<char>) -> bool {
    t.len() >= 4 && digits_at(t, 0, 4)
}

pub open spec fn iso_date(y: Seq<char>, m: Seq<char>, d: Seq<char>) -> Seq<char> {
    y + seq!['-'] + m + seq!['-'] + d
}

/// The date that a token encodes, in `YYYY-MM-DD` form: the hyphenated form
/// is tried first, then the compact one, then a bare year (month and day `01`).
pub open spec fn date_of(t: Seq<char>) -> Option<Seq<char>> {
    if hyphenated_date(t) {
        Some(iso_date(t.subrange(0, 4), t.subrange(5, 7), t.subrange(8, 10)))
    } else if compact_date(t) {
        Some(iso_date(t.subrange(0, 4), t.subrange(4, 6), t.subrange(6, 8)))
    } else if year_only_date(t) {
        Some(iso_date(t.subrange(0, 4), seq!['0', '1'], seq!['0', '1']))
    } else {
        None
    }
}

fn digits_in(v: &Vec<char>, from: usize, to: usize) -> (r: bool)
    requires
        from <= to <= v.len(),
    ensures
        r == digits_at(v@, from as int, to as int),
{
    let mut i: usize = from;
    while i < to
        invariant
            from <= i <= to <= v.len(),
            forall|j: int| from <= j < i ==> is_digit(#[trigger] v@[j]),
        decreases to - i,
    {
        if !is_ascii_digit(v[i]) {
            return false;
        }
        i += 1;
    }
    true
}

fn date_from_chars(v: &Vec<char>) -> (r: Option<String>)
    ensures
        opt_view(r) == date_of(v@),
{
    let mut out: Vec<char> = Vec::new();
    if v.len() >= 10 && digits_in(v, 0, 4) && v[4] == '-' && digits_in(v, 5, 7) && v[7] == '-'
        && digits_in(v, 8, 10) {
        push_range(&mut out, v, 0, 4);
        out.push('-');
        push_range(&mut out, v, 5, 7);
        out.push('-');
        push_range(&mut out, v, 8, 10);
        assert(out@ =~= iso_date(v@.subrange(0, 4), v@.subrange(5, 7), v@.subrange(8, 10)));
        Some(string_of(&out))
    } else if v.len() >= 8 && digits_in(v, 0, 8) {
        push_range(&mut out, v, 0, 4);
        out.push('-');
        push_range(&mut out, v, 4, 6);
        out.push('-');
        push_range(&mut out, v, 6, 8);
        assert(out@ =~= iso_date(v@.subrange(0, 4), v@.subrange(4, 6), v@.subrange(6, 8)));
        Some(string_of(&out))
    } else if v.len() >= 4 && digits_in(v, 0, 4) {
        push_range(&mut out, v, 0, 4);
        out.push('-');
        out.push('0');
        out.push('1');
        out.push('-');
        out.push('0');
        out.push('1');
        assert(out@ =~= iso_date(v@.subrange(0, 4), seq!['0', '1'], seq!['0', '1']));
        Some(string_of(&out))
    } else {
        None
    }
}

/// The date at the start of `text`, in `YYYY-MM-DD` form; `None` when no
/// date form matches there. Month and day are not range-checked.
pub fn parse_date(text: &str) -> (r: Option<String>)
    ensures
        opt_view(r) == date_of(text@),
{
    date_from_chars(&chars_of(text))
}

// ---------------------------------------------------------------- pages

/// Index of the first digit of `t` at or after `i`, or `t.len()` if none.
pub open spec fn first_digit_from(t: Seq<char>, i: int) -> int
    decreases t.len() - i,
{
    if i >= t.len() {
        t.len() as int
    } else if is_digit(t[i]) {
        i
    } else {
        first_digit_from(t, i + 1)
    }
}

/// End of the run of digits of `t` that starts at `i`.
pub open spec fn digit_run_end(t: Seq<char>, i: int) -> int
    decreases t.len() - i,
{
    if i >= t.len() {
        t.len() as int
    } else if !is_digit(t[i]) {
        i
    } else {
        digit_run_end(t, i + 1)
    }
}

/// The first maximal run of digits in `t`, if any.
pub open spec fn page_of(t: Seq<char>) -> Option<Seq<char>> {
    let s = first_digit_from(t, 0);
    if s >= t.len() {
        None
    } else {
        Some(t.subrange(s, digit_run_end(t, s)))
    }
}

fn page_from_chars(v: &Vec<char>) -> (r: Option<String>)
    ensures
        opt_view(r) == page_of(v@),
{
    let mut i: usize = 0;
    while i < v.len() && !is_ascii_digit(v[i])
        invariant
            i <= v.len(),
            first_digit_from(v@, 0) == first_digit_from(v@, i as int),
        decreases v.len() - i,
    {
        i += 1;
    }
    if i == v.len() {
        return None;
    }
    let mut j: usize = i;
    while j < v.len() && is_ascii_digit(v[j])
        invariant
            i <= j <= v.len(),
            digit_run_end(v@, i as int) == digit_run_end(v@, j as int),
        decreases v.len() - j,
    {
        j += 1;
    }
    let mut out: Vec<char> = Vec::new();
    push_range(&mut out, v, i, j);
    assert(out@ =~= v@.subrange(i as int, j as int));
    Some(string_of(&out))
}

/// The first maximal run of digits in `text` (`"pg20"` gives `"20"`), or
/// `None` when `text` holds no digit.
pub fn parse_page(text: &str) -> (r: Option<String>)
    ensures
        opt_view(r) == page_of(text@),
{
    page_from_chars(&chars_of(text))
}

// ---------------------------------------------------------------- tokens

/// Index of the first `_` of `s` at or after `i`, or `s.len()` if none.
pub open spec fn sep_from(s: Seq<char>, i: int) -> int
    decreases s.len() - i,
{
    if i >= s.len() {
        s.len() as int
    } else if s[i] == '_' {
        i
    } else {
        sep_from(s, i + 1)
    }
}

/// Where the `k`-th `_`-separated token of `s` starts, if `s` has that many.
pub open spec fn token_start(s: Seq<char>, k: nat) -> Option<int>
    decreases k,
{
    if k == 0 {
        Some(0)
    } else {
        match token_start(s, (k - 1) as nat) {
            Some(b) => if sep_from(s, b) < s.len() {
                Some(sep_from(s, b) + 1)
            } else {
                None
            },
            None => None,
        }
    }
}

/// The `k`-th token of `s` split on `_`.
pub open spec fn token(s: Seq<char>, k: nat) -> Option<Seq<char>> {
    match token_start(s, k) {
        Some(b) => Some(s.subrange(b, sep_from(s, b))),
        None => None,
    }
}

proof fn lemma_sep_bounds(s: Seq<char>, i: int)
    requires
        0 <= i <= s.len(),
    ensures
        i <= sep_from(s, i) <= s.len(),
    decreases s.len() - i,
{
    if i < s.len() && s[i] != '_' {
        lemma_sep_bounds(s, i + 1);
    }
}

fn token_end(v: &Vec<char>, b: usize) -> (e: usize)
    requires
        b <= v.len(),
    ensures
        e == sep_from(v@, b as int),
{
    let mut i: usize = b;
    while i < v.len() && v[i] != '_'
        invariant
            b <= i <= v.len(),
            sep_from(v@, b as int) == sep_from(v@, i as int),
        decreases v.len() - i,
    {
        i += 1;
    }
    i
}

/// The token that starts at `start`, and where the next one starts.
fn token_at(v: &Vec<char>, start: Option<usize>) -> (r: (Option<Vec<char>>, Option<usize>))
    requires
        start matches Some(b) ==> b <= v.len(),
    ensures
        start is None ==> r.0 is None && r.1 is None,
        start matches Some(b) ==> {
            let e = sep_from(v@, b as int);
            &&& r.0 matches Some(t) && t@ == v@.subrange(b as int, e)
            &&& e < v.len() ==> (r.1 matches Some(n) && n == e + 1)
            &&& e >= v.len() ==> r.1 is None
        },
        r.1 matches Some(n) ==> n <= v.len(),
{
    match start {
        None => (None, None),
        Some(b) => {
            let e = token_end(v, b);
            proof {
                lemma_sep_bounds(v@, b as int);
            }
            let mut t: Vec<char> = Vec::new();
            push_range(&mut t, v, b, e);
            assert(t@ =~= v@.subrange(b as int, e as int));
            if e < v.len() {
                (Some(t), Some(e + 1))
            } else {
                (Some(t), None)
            }
        },
    }
}

// ---------------------------------------------------------------- identity

pub open spec fn opt_view(o: Option<String>) -> Option<Seq<char>> {
    match o {
        Some(s) => Some(s@),
        None => None,
    }
}

/// The decoded form of a file name stem, as character sequences.
pub struct Identity {
    pub date: Option<Seq<char>>,
    pub institution: Option<Seq<char>>,
    pub name: Option<Seq<char>>,
    pub page: Option<Seq<char>>,
}

/// A document identity whose fields were each parsed, or not, independently.
#[derive(Clone, Debug, PartialEq, Eq)]
pub struct OptDoc {
    pub date: Option<String>,
    pub institution: Option<String>,
    pub name: Option<String>,
    pub page: Option<String>,
}

impl View for OptDoc {
    type V = Identity;

    open spec fn view(&self) -> Identity {
        Identity {
            date: opt_view(self.date),
            institution: opt_view(self.institution),
            name: opt_view(self.name),
            page: opt_view(self.page),
        }
    }
}

/// What a stem decodes to: token 0 as a date, tokens 1 and 2 verbatim,
/// token 3 as a page; later tokens are ignored.
pub open spec fn parse_spec(stem: Seq<char>) -> Identity {
    Identity {
        date: match token(stem, 0) {
            Some(t) => date_of(t),
            None => None,
        },
        institution: token(stem, 1),
        name: token(stem, 2),
        page: match token(stem, 3) {
            Some(t) => page_of(t),
            None => None,
        },
    }
}

/// All four fields are present.
pub open spec fn fully_parsed(id: Identity) -> bool {
    &&& id.date is Some
    &&& id.institution is Some
    &&& id.name is Some
    &&& id.page is Some
}

pub(crate) open spec fn opt_chars(t: Option<Vec<char>>) -> Option<Seq<char>> {
    match t {
        Some(v) => Some(v@),
        None => None,
    }
}

pub(crate) open spec fn opt_index(n: Option<usize>) -> Option<int> {
    match n {
        Some(i) => Some(i as int),
        None => None,
    }
}

fn to_string_opt(t: &Option<Vec<char>>) -> (r: Option<String>)
    ensures
        t is None ==> r is None,
        t matches Some(v) ==> r matches Some(s) && s@ == v@,
{
    match t {
        Some(v) => Some(string_of(v)),
        None => None,
    }
}

impl OptDoc {
    /// Decodes a file name stem split on `_`.
    pub fn parse(stem: &str) -> (r: OptDoc)
        ensures
            r@ == parse_spec(stem@),
    {
        let v = chars_of(stem);
        let (t0, s1) = token_at(&v, Some(0));
        let (t1, s2) = token_at(&v, s1);
        let (t2, s3) = token_at(&v, s2);
        let (t3, _s4) = token_at(&v, s3);
        proof {
            reveal_with_fuel(token_start, 2);
            assert(token(v@, 0) == opt_chars(t0));
            assert(token_start(v@, 1) == opt_index(s1));
            assert(token(v@, 1) == opt_chars(t1));
            assert(token_start(v@, 2) == opt_index(s2));
            assert(token(v@, 2) == opt_chars(t2));
            assert(token_start(v@, 3) == opt_index(s3));
            assert(token(v@, 3) == opt_chars(t3));
        }
        let date = match &t0 {
            Some(t) => date_from_chars(t),
            None => None,
        };
        let page = match &t3 {
            Some(t) => page_from_chars(t),
            None => None,
        };
        OptDoc {
            date,
            institution: to_string_opt(&t1),
            name: to_string_opt(&t2),
            page,
        }
    }

    pub fn is_parseable(&self) -> (r: bool)
        ensures
            r == fully_parsed(self@),
    {
        self.date.is_some() && self.institution.is_some() && self.name.is_some()
            && self.page.is_some()
    }
}

// ---------------------------------------------------------------- file names

/// Index of the last `.` in `n[0..i]`, or -1 if there is none.
pub open spec fn last_dot_before(n: Seq<char>, i: int) -> int
    decreases i,
{
    if i <= 0 {
        -1
    } else if n[i - 1] == '.' {
        i - 1
    } else {
        last_dot_before(n, i - 1)
    }
}

/// A file name has an extension when it holds a `.` past its first
/// character and is not `..`.
pub open spec fn has_extension(n: Seq<char>) -> bool {
    n != seq!['.', '.'] && last_dot_before(n, n.len() as int) > 0
}

/// A file name without its extension.
pub open spec fn stem_of(n: Seq<char>) -> Seq<char> {
    if has_extension(n) {
        n.subrange(0, last_dot_before(n, n.len() as int))
    } else {
        n
    }
}

/// What follows the last `.` of a file name, if it has an extension.
pub open spec fn extension_of(n: Seq<char>) -> Option<Seq<char>> {
    if has_extension(n) {
        Some(n.subrange(last_dot_before(n, n.len() as int) + 1, n.len() as int))
    } else {
        None
    }
}

/// The lower-cased extension of a file name; empty when it has none.
pub open spec fn lower_extension(n: Seq<char>) -> Seq<char> {
    match extension_of(n) {
        Some(e) => lower_seq(e),
        None => seq![],
    }
}

/// Splits a file name into its stem and its extension.
pub(crate) fn split_name(v: &Vec<char>) -> (r: (Vec<char>, Option<Vec<char>>))
    ensures
        r.0@ == stem_of(v@),
        opt_chars(r.1) == extension_of(v@),
{
    let mut i: usize = v.len();
    while i > 0 && v[i - 1] != '.'
        invariant
            i <= v.len(),
            last_dot_before(v@, v.len() as int) == last_dot_before(v@, i as int),
        decreases i,
    {
        i -= 1;
    }
    let dot_dot = v.len() == 2 && v[0] == '.' && v[1] == '.';
    proof {
        if v.len() == 2 && v@[0] == '.' && v@[1] == '.' {
            assert(v@ =~= seq!['.', '.']);
        }
    }
    if dot_dot || i < 2 {
        let mut stem: Vec<char> = Vec::new();
        push_all(&mut stem, v);
        (stem, None)
    } else {
        let mut stem: Vec<char> = Vec::new();
        push_range(&mut stem, v, 0, i - 1);
        let mut ext: Vec<char> = Vec::new();
        push_range(&mut ext, v, i, v.len());
        assert(stem@ =~= v@.subrange(0, i - 1));
        assert(ext@ =~= v@.subrange(i as int, v.len() as int));
        (stem, Some(ext))
    }
}

// ---------------------------------------------------------------- rendering

/// The page that a rendered name carries: `1` when none was parsed.
pub open spec fn page_or_default(p: Option<Seq<char>>) -> Seq<char> {
    match p {
        Some(x) => x,
        None => seq!['1'],
    }
}

/// Date, institution and name are present, so the identity can be rendered.
pub open spec fn renderable(id: Identity) -> bool {
    id.date is Some && id.institution is Some && id.name is Some
}

/// `{date}_{institution}_{name}_{page}.{ext}` with `ext` lower-cased.
pub open spec fn render_spec(id: Identity, ext: Seq<char>) -> Seq<char> {
    id.date->0 + seq!['_'] + id.institution->0 + seq!['_'] + id.name->0 + seq!['_']
        + page_or_default(id.page) + seq!['.'] + lower_seq(ext)
}

/// Why an identity could not be rendered.
#[derive(Clone, Copy, Debug, PartialEq, Eq, Structural)]
pub enum RenderError {
    /// The date, institution or name is missing.
    IncompleteIdentity,
}

/// The canonical file name of `identity` with extension `ext` (lower-cased);
/// fails when the date, the institution or the name is missing.
pub fn render(identity: &OptDoc, ext: &str) -> (r: Result<String, RenderError>)
    ensures
        r is Ok <==> renderable(identity@),
        r matches Ok(s) ==> s@ == render_spec(identity@, ext@),
{
    match (&identity.date, &identity.institution, &identity.name) {
        (Some(d), Some(i), Some(n)) => {
            let mut out: Vec<char> = Vec::new();
            push_all(&mut out, &chars_of(d.as_str()));
            out.push('_');
            push_all(&mut out, &chars_of(i.as_str()));
            out.push('_');
            push_all(&mut out, &chars_of(n.as_str()));
            out.push('_');
            match &identity.page {
                Some(p) => push_all(&mut out, &chars_of(p.as_str())),
                None => out.push('1'),
            }
            out.push('.');
            push_lowered(&mut out, &chars_of(ext));
            assert(out@ =~= render_spec(identity@, ext@));
            Ok(string_of(&out))
        },
        _ => Err(RenderError::IncompleteIdentity),
    }
}

// ---------------------------------------------------------------- normalization

/// A file name is normalized when its stem parses fully and the name equals
/// the canonical rendering of that identity with its own lower-cased extension.
pub open spec fn normalized_name(n: Seq<char>) -> bool {
    let id = parse_spec(stem_of(n));
    fully_parsed(id) && n == render_spec(id, lower_extension(n))
}

/// The identity that the stem of file name `name` decodes to.
pub fn parse_file_name(name: &str) -> (r: OptDoc)
    ensures
        r@ == parse_spec(stem_of(name@)),
{
    let v = chars_of(name);
    let (stem, _ext) = split_name(&v);
    let s = string_of(&stem);
    OptDoc::parse(s.as_str())
}

/// The lower-cased extension of file name `name`, empty when it has none.
pub fn name_extension(name: &str) -> (r: String)
    ensures
        r@ == lower_extension(name@),
{
    let v = chars_of(name);
    let (_stem, ext) = split_name(&v);
    let mut out: Vec<char> = Vec::new();
    match &ext {
        Some(e) => push_lowered(&mut out, e),
        None => {},
    }
    assert(out@ =~= lower_extension(name@));
    string_of(&out)
}

/// Whether file name `name` is exactly the canonical name of its own identity.
pub fn is_normalized_name(name: &str) -> (r: bool)
    ensures
        r == normalized_name(name@),
{
    let id = parse_file_name(name);
    if !id.is_parseable() {
        return false;
    }
    let ext = name_extension(name);
    match render(&id, ext.as_str()) {
        Ok(canonical) => same_chars(&chars_of(canonical.as_str()), &chars_of(name)),
        Err(_) => false,
    }
}

// ---------------------------------------------------------------- round trip

/// `s` holds no `_`, so it can stand as one token.
pub open spec fn no_separator(s: Seq<char>) -> bool {
    forall|i: int| 0 <= i < s.len() ==> s[i] != '_'
}

/// `s` holds no `.`.
pub open spec fn no_dot(s: Seq<char>) -> bool {
    forall|i: int| 0 <= i < s.len() ==> s[i] != '.'
}

/// An identity that parsing can produce: every field present, the date in
/// `YYYY-MM-DD` form, institution and name free of `_`, the page a non-empty
/// run of digits.
pub open spec fn valid_identity(id: Identity) -> bool {
    &&& fully_parsed(id)
    &&& id.date->0.len() == 10
    &&& hyphenated_date(id.date->0)
    &&& no_separator(id.institution->0)
    &&& no_separator(id.name->0)
    &&& id.page->0.len() > 0
    &&& digits_at(id.page->0, 0, id.page->0.len() as int)
}

proof fn lemma_sep_skip(s: Seq<char>, i: int, j: int)
    requires
        0 <= i <= j <= s.len(),
        forall|k: int| i <= k < j ==> s[k] != '_',
        j == s.len() || s[j] == '_',
    ensures
        sep_from(s, i) == j,
    decreases j - i,
{
    if i < j {
        lemma_sep_skip(s, i + 1, j);
    }
}

/// A field `x` standing at `b` in `s`, followed by `_` or the end, is the
/// token that starts at `b`.
proof fn lemma_field_token(s: Seq<char>, b: int, x: Seq<char>)
    requires
        0 <= b,
        b + x.len() <= s.len(),
        s.subrange(b, b + x.len()) == x,
        no_separator(x),
        b + x.len() == s.len() || s[b + x.len()] == '_',
    ensures
        sep_from(s, b) == b + x.len(),
        s.subrange(b, sep_from(s, b)) == x,
{
    assert forall|k: int| b <= k < b + x.len() implies s[k] != '_' by {
        assert(s.subrange(b, b + x.len())[k - b] == s[k]);
    }
    lemma_sep_skip(s, b, b + x.len());
}

proof fn lemma_dot_skip(n: Seq<char>, j: int, i: int)
    requires
        0 < j <= i <= n.len(),
        n[j - 1] == '.',
        forall|k: int| j <= k < i ==> n[k] != '.',
    ensures
        last_dot_before(n, i) == j - 1,
    decreases i - j,
{
    if i > j {
        lemma_dot_skip(n, j, i - 1);
    }
}

proof fn lemma_digit_run(p: Seq<char>, i: int)
    requires
        digits_at(p, 0, p.len() as int),
        0 <= i <= p.len(),
    ensures
        digit_run_end(p, i) == p.len(),
    decreases p.len() - i,
{
    if i < p.len() {
        lemma_digit_run(p, i + 1);
    }
}

proof fn lemma_lower_keeps_dots(s: Seq<char>)
    requires
        no_dot(s),
    ensures
        no_dot(lower_seq(s)),
        lower_seq(lower_seq(s)) == lower_seq(s),
{
    assert forall|i: int| 0 <= i < s.len() implies lower_seq(s)[i] != '.' by {
        let c = s[i];
        if 'A' <= c && c <= 'Z' {
            assert((ascii_lower(c) as u32) == (c as u32) + 32);
        }
    }
    assert forall|i: int| 0 <= i < s.len() implies #[trigger] ascii_lower(ascii_lower(s[i]))
        == ascii_lower(s[i]) by {
        let c = s[i];
        if 'A' <= c && c <= 'Z' {
            assert((ascii_lower(c) as u32) == (c as u32) + 32);
        }
    }
    assert(lower_seq(lower_seq(s)) =~= lower_seq(s));
}

/// Round trip: the canonical name rendered from a valid identity, with an
/// extension free of `.`, parses back to that identity and is normalized.
pub proof fn lemma_render_round_trip(id: Identity, ext: Seq<char>)
    requires
        valid_identity(id),
        no_dot(ext),
    ensures
        parse_spec(stem_of(render_spec(id, ext))) == id,
        normalized_name(render_spec(id, ext)),
{
    let d = id.date->0;
    let inst = id.institution->0;
    let nm = id.name->0;
    let pg = id.page->0;
    let l = lower_seq(ext);
    let stem = d + seq!['_'] + inst + seq!['_'] + nm + seq!['_'] + pg;
    let f = render_spec(id, ext);
    assert(f =~= stem + seq!['.'] + l);
    lemma_lower_keeps_dots(ext);

    // the last dot of f is the one after the stem
    assert forall|k: int| stem.len() + 1 <= k < f.len() implies f[k] != '.' by {
        assert(f[k] == l[k - stem.len() - 1]);
    }
    lemma_dot_skip(f, stem.len() as int + 1, f.len() as int);
    assert(f != seq!['.', '.']) by {
        assert(f.len() != 2);
    }
    assert(f.subrange(0, stem.len() as int) =~= stem);
    assert(stem_of(f) == stem);
    assert(f.subrange(stem.len() as int + 1, f.len() as int) =~= l);
    assert(lower_extension(f) == lower_seq(l));

    // each field is one token of the stem
    let a1: int = d.len() as int + 1;
    let a2: int = a1 + inst.len() + 1;
    let a3: int = a2 + nm.len() + 1;
    assert(no_separator(d)) by {
        assert forall|i: int| 0 <= i < d.len() implies d[i] != '_' by {
            if i < 4 {
            } else if i == 4 || i == 7 {
            } else if i < 7 {
            } else {
            }
        }
    }
    assert(no_separator(pg)) by {
        assert forall|i: int| 0 <= i < pg.len() implies pg[i] != '_' by {
            assert(is_digit(pg[i]));
        }
    }
    assert(stem.subrange(0, d.len() as int) =~= d);
    assert(stem.subrange(a1, a1 + inst.len()) =~= inst);
    assert(stem.subrange(a2, a2 + nm.len()) =~= nm);
    assert(stem.subrange(a3, a3 + pg.len()) =~= pg);
    assert(stem[d.len() as int] == '_');
    assert(stem[a1 + inst.len()] == '_');
    assert(stem[a2 + nm.len()] == '_');
    lemma_field_token(stem, 0, d);
    lemma_field_token(stem, a1, inst);
    lemma_field_token(stem, a2, nm);
    lemma_field_token(stem, a3, pg);
    reveal_with_fuel(token_start, 4);
    assert(token(stem, 0) == Some(d));
    assert(token(stem, 1) == Some(inst));
    assert(token(stem, 2) == Some(nm));
    assert(token(stem, 3) == Some(pg));

    // the date and the page decode to themselves
    assert(iso_date(d.subrange(0, 4), d.subrange(5, 7), d.subrange(8, 10)) =~= d);
    assert(date_of(d) == Some(d));
    assert(is_digit(pg[0]));
    lemma_digit_run(pg, 0);
    assert(pg.subrange(0, pg.len() as int) =~= pg);
    assert(page_of(pg) == Some(pg));
    assert(parse_spec(stem) == id);
    assert(render_spec(id, lower_seq(l)) =~= f);
}

} // verus!
