//! Character classes, maximal runs of characters, trimming, and the
//! conversions between `str`/`String` and vectors of characters that the
//! scanners of this crate work on.
use vstd::prelude::*;

verus! {

/// ASCII white space: space, tab, line feed, vertical tab, form feed and
/// carriage return.
pub open spec fn is_space(c: char) -> bool {
    c == ' ' || c == '\t' || c == '\n' || c == '\r' || c == '\x0B' || c == '\x0C'
}

/// Every character of `w` is white space.
pub open spec fn all_space(w: Seq<char>) -> bool {
    forall|j: int| 0 <= j < w.len() ==> is_space(#[trigger] w[j])
}

pub open spec fn is_alpha(c: char) -> bool {
    ('a' <= c && c <= 'z') || ('A' <= c && c <= 'Z')
}

pub open spec fn is_alnum(c: char) -> bool {
    is_alpha(c) || ('0' <= c && c <= '9')
}

/// The classes of characters whose maximal runs the scanners measure.
#[derive(Clone, Copy, PartialEq, Eq, Debug)]
pub enum CharClass {
    /// ASCII white space.
    Space,
    /// Anything but ASCII white space.
    NonSpace,
    /// ASCII letters.
    Alpha,
    /// ASCII letters, digits and `_`.
    Word,
    /// What the target of a `{{ #type target }}` placeholder may hold:
    /// letters, digits, white space and `_ . - : / \ +`.
    Target,
    /// What the key of an `@@key` citation may hold: letters, digits and `_ - : / +`.
    AtKey,
    /// What a citation key in a BibTeX entry may hold: anything but white space,
    /// `,`, `{` and `}`.
    EntryKey,
    /// What a field name in a BibTeX entry may hold: letters, digits and `_ - : . +`.
    FieldName,
    /// What an unbraced field value may hold: anything but `,`, `{` and `}`.
    Bare,
    /// Anything but `,`.
    NotComma,
    /// Anything but `-`.
    NotDash,
    /// Anything but `/`.
    NotSlash,
    /// Anything but a line feed.
    NotNewline,
}

pub open spec fn in_class(k: CharClass, c: char) -> bool {
    match k {
        CharClass::Space => is_space(c),
        CharClass::NonSpace => !is_space(c),
        CharClass::Alpha => is_alpha(c),
        CharClass::Word => is_alnum(c) || c == '_',
        CharClass::Target => is_alnum(c) || is_space(c) || c == '_' || c == '.' || c == '-'
            || c == ':' || c == '/' || c == '\\' || c == '+',
        CharClass::AtKey => is_alnum(c) || c == '_' || c == '-' || c == ':' || c == '/' || c
            == '+',
        CharClass::EntryKey => !is_space(c) && c != ',' && c != '{' && c != '}',
        CharClass::FieldName => is_alnum(c) || c == '_' || c == '-' || c == ':' || c == '.'
            || c == '+',
        CharClass::Bare => c != ',' && c != '{' && c != '}',
        CharClass::NotComma => c != ',',
        CharClass::NotDash => c != '-',
        CharClass::NotSlash => c != '/',
        CharClass::NotNewline => c != '\n',
    }
}

pub fn is_space_char(c: char) -> (b: bool)
    ensures
        b == is_space(c),
{
    c == ' ' || c == '\t' || c == '\n' || c == '\r' || c == '\x0B' || c == '\x0C'
}

fn is_alnum_char(c: char) -> (b: bool)
    ensures
        b == is_alnum(c),
{
    ('a' <= c && c <= 'z') || ('A' <= c && c <= 'Z') || ('0' <= c && c <= '9')
}

pub fn char_in_class(k: CharClass, c: char) -> (b: bool)
    ensures
        b == in_class(k, c),
{
    match k {
        CharClass::Space => is_space_char(c),
        CharClass::NonSpace => !is_space_char(c),
        CharClass::Alpha => ('a' <= c && c <= 'z') || ('A' <= c && c <= 'Z'),
        CharClass::Word => is_alnum_char(c) || c == '_',
        CharClass::Target => is_alnum_char(c) || is_space_char(c) || c == '_' || c == '.' || c
            == '-' || c == ':' || c == '/' || c == '\\' || c == '+',
        CharClass::AtKey => is_alnum_char(c) || c == '_' || c == '-' || c == ':' || c == '/'
            || c == '+',
        CharClass::EntryKey => !is_space_char(c) && c != ',' && c != '{' && c != '}',
        CharClass::FieldName => is_alnum_char(c) || c == '_' || c == '-' || c == ':' || c
            == '.' || c == '+',
        CharClass::Bare => c != ',' && c != '{' && c != '}',
        CharClass::NotComma => c != ',',
        CharClass::NotDash => c != '-',
        CharClass::NotSlash => c != '/',
        CharClass::NotNewline => c != '\n',
    }
}

/// The end of the maximal run of characters of class `k` that starts at `i`:
/// `i` itself where `s[i]` is not of the class (or `i` is out of bounds).
pub open spec fn run_end(s: Seq<char>, i: int, k: CharClass) -> int
    decreases s.len() - i,
{
    if 0 <= i < s.len() && in_class(k, s[i]) {
        run_end(s, i + 1, k)
    } else {
        i
    }
}

/// A run ends no earlier than it starts and no later than the end of the
/// text; all of it is of the class, and the character that ends it is not.
pub proof fn lemma_run_end(s: Seq<char>, i: int, k: CharClass)
    requires
        0 <= i,
    ensures
        i <= run_end(s, i, k),
        i <= s.len() ==> run_end(s, i, k) <= s.len(),
        forall|j: int| i <= j < run_end(s, i, k) ==> in_class(k, #[trigger] s[j]),
        run_end(s, i, k) < s.len() ==> !in_class(k, s[run_end(s, i, k)]),
    decreases s.len() - i,
{
    if 0 <= i < s.len() && in_class(k, s[i]) {
        lemma_run_end(s, i + 1, k);
    }
}

/// A run ends exactly where the characters of its class stop.
pub proof fn lemma_run_exact(s: Seq<char>, i: int, j: int, k: CharClass)
    requires
        0 <= i <= j <= s.len(),
        forall|m: int| i <= m < j ==> in_class(k, #[trigger] s[m]),
        j == s.len() || !in_class(k, s[j]),
    ensures
        run_end(s, i, k) == j,
    decreases j - i,
{
    if i < j {
        lemma_run_exact(s, i + 1, j, k);
    }
}

/// A run inside a text that ends with `rest` at `off` ends where the run in
/// `rest` ends, shifted by `off`.
pub proof fn lemma_run_shift(p: Seq<char>, rest: Seq<char>, off: int, i: int, k: CharClass)
    requires
        0 <= off,
        0 <= i,
        off + rest.len() == p.len(),
        forall|j: int| 0 <= j < rest.len() ==> p[off + j] == rest[j],
    ensures
        run_end(p, off + i, k) == off + run_end(rest, i, k),
    decreases rest.len() - i,
{
    if i < rest.len() {
        assert(p[off + i] == rest[i]);
        lemma_run_shift(p, rest, off, i + 1, k);
    }
}

/// White space around a text that neither starts nor ends with white space
/// is exactly what trimming takes away.
pub proof fn lemma_trim_spaces(w1: Seq<char>, t: Seq<char>, w2: Seq<char>)
    requires
        forall|j: int| 0 <= j < w1.len() ==> is_space(#[trigger] w1[j]),
        forall|j: int| 0 <= j < w2.len() ==> is_space(#[trigger] w2[j]),
        t.len() > 0,
        !is_space(t[0]),
        !is_space(t.last()),
    ensures
        trim(w1 + t + w2) == t,
{
    lemma_trim_start_spaces(w1, t + w2);
    assert(w1 + t + w2 =~= w1 + (t + w2));
    lemma_trim_end_spaces(t, w2);
}

proof fn lemma_trim_start_spaces(w: Seq<char>, t: Seq<char>)
    requires
        forall|j: int| 0 <= j < w.len() ==> is_space(#[trigger] w[j]),
        t.len() > 0,
        !is_space(t[0]),
    ensures
        trim_start(w + t) == t,
    decreases w.len(),
{
    if w.len() > 0 {
        assert((w + t).drop_first() =~= w.drop_first() + t);
        assert(is_space(w[0]));
        lemma_trim_start_spaces(w.drop_first(), t);
    } else {
        assert(w + t =~= t);
    }
}

proof fn lemma_trim_end_spaces(t: Seq<char>, w: Seq<char>)
    requires
        forall|j: int| 0 <= j < w.len() ==> is_space(#[trigger] w[j]),
        t.len() > 0,
        !is_space(t.last()),
    ensures
        trim_end(t + w) == t,
    decreases w.len(),
{
    if w.len() > 0 {
        assert((t + w).drop_last() =~= t + w.drop_last());
        assert(is_space(w[w.len() - 1]));
        lemma_trim_end_spaces(t, w.drop_last());
    } else {
        assert(t + w =~= t);
    }
}

/// The end of the run of class `k` that starts at `i`.
pub fn scan_run(s: &Vec<char>, i: usize, k: CharClass) -> (r: usize)
    requires
        i <= s@.len(),
    ensures
        r as int == run_end(s@, i as int, k),
        i <= r <= s@.len(),
{
    let mut j = i;
    while j < s.len() && char_in_class(k, s[j])
        invariant
            i <= j <= s@.len(),
            run_end(s@, i as int, k) == run_end(s@, j as int, k),
        decreases s@.len() - j,
    {
        j = j + 1;
    }
    j
}

/// `t` without the white space at its start.
pub open spec fn trim_start(t: Seq<char>) -> Seq<char>
    decreases t.len(),
{
    if t.len() > 0 && is_space(t[0]) {
        trim_start(t.drop_first())
    } else {
        t
    }
}

/// `t` without the white space at its end.
pub open spec fn trim_end(t: Seq<char>) -> Seq<char>
    decreases t.len(),
{
    if t.len() > 0 && is_space(t.last()) {
        trim_end(t.drop_last())
    } else {
        t
    }
}

/// `t` without white space at either end.
pub open spec fn trim(t: Seq<char>) -> Seq<char> {
    trim_end(trim_start(t))
}

/// The bounds, inside `[lo, hi)`, of `s[lo..hi]` with white space trimmed from
/// both ends.
pub fn trim_bounds(s: &Vec<char>, lo: usize, hi: usize) -> (r: (usize, usize))
    requires
        lo <= hi <= s@.len(),
    ensures
        lo <= r.0 <= r.1 <= hi,
        s@.subrange(r.0 as int, r.1 as int) == trim(s@.subrange(lo as int, hi as int)),
{
    let mut a = lo;
    while a < hi && is_space_char(s[a])
        invariant
            lo <= a <= hi <= s@.len(),
            trim_start(s@.subrange(lo as int, hi as int)) == trim_start(
                s@.subrange(a as int, hi as int),
            ),
        decreases hi - a,
    {
        assert(s@.subrange(a as int, hi as int).drop_first() =~= s@.subrange(
            a + 1,
            hi as int,
        ));
        a = a + 1;
    }
    let mut b = hi;
    while b > a && is_space_char(s[b - 1])
        invariant
            lo <= a <= b <= hi <= s@.len(),
            trim_end(s@.subrange(a as int, hi as int)) == trim_end(
                s@.subrange(a as int, b as int),
            ),
        decreases b - a,
    {
        assert(s@.subrange(a as int, b as int).drop_last() =~= s@.subrange(
            a as int,
            b - 1,
        ));
        b = b - 1;
    }
    (a, b)
}

/// Trimming leaves text that neither starts nor ends with white space.
pub proof fn lemma_trim_edges(t: Seq<char>)
    ensures
        trim(t).len() > 0 ==> !is_space(trim(t)[0]) && !is_space(trim(t).last()),
        trim(t).len() <= t.len(),
{
    lemma_trim_start_edge(t);
    lemma_trim_end_edge(trim_start(t));
}

proof fn lemma_trim_start_edge(t: Seq<char>)
    ensures
        trim_start(t).len() > 0 ==> !is_space(trim_start(t)[0]),
        trim_start(t).len() <= t.len(),
    decreases t.len(),
{
    if t.len() > 0 && is_space(t[0]) {
        lemma_trim_start_edge(t.drop_first());
    }
}

proof fn lemma_trim_end_edge(t: Seq<char>)
    ensures
        trim_end(t).len() > 0 ==> !is_space(trim_end(t).last()),
        trim_end(t).len() <= t.len(),
        trim_end(t).len() > 0 ==> trim_end(t)[0] == t[0],
        trim_end(t) == t.subrange(0, trim_end(t).len() as int),
    decreases t.len(),
{
    if t.len() > 0 && is_space(t.last()) {
        lemma_trim_end_edge(t.drop_last());
        assert(t.drop_last().subrange(0, trim_end(t).len() as int) =~= t.subrange(
            0,
            trim_end(t).len() as int,
        ));
    } else {
        assert(t.subrange(0, t.len() as int) =~= t);
    }
}

/// The characters of `s`, in order.
pub fn chars_of(s: &str) -> (v: Vec<char>)
    ensures
        v@ == s@,
{
    let mut v: Vec<char> = Vec::new();
    for c in it: s.chars()
        invariant
            it.seq() == s@,
            v@ == it.seq().take(it.index() as int),
    {
        v.push(c);
    }
    v
}

/// Appends one character (a call of `String::push`; vstd gives that
/// method no specification). The contract claims that the character is
/// added at the end and nothing else changes.
#[verifier::external_body]
pub fn push_char(s: &mut String, c: char)
    ensures
        final(s)@ == old(s)@.push(c),
{
    s.push(c);
}

/// Appends `src[lo..hi]` to `out`.
pub fn push_range(out: &mut String, src: &Vec<char>, lo: usize, hi: usize)
    requires
        lo <= hi <= src@.len(),
    ensures
        final(out)@ == old(out)@ + src@.subrange(lo as int, hi as int),
{
    let mut i = lo;
    while i < hi
        invariant
            lo <= i <= hi <= src@.len(),
            out@ == old(out)@ + src@.subrange(lo as int, i as int),
        decreases hi - i,
    {
        push_char(out, src[i]);
        assert(src@.subrange(lo as int, i + 1) =~= src@.subrange(lo as int, i as int).push(
            src@[i as int],
        ));
        i = i + 1;
    }
}

/// A new string holding `src[lo..hi]`.
pub fn string_of_range(src: &Vec<char>, lo: usize, hi: usize) -> (r: String)
    requires
        lo <= hi <= src@.len(),
    ensures
        r@ == src@.subrange(lo as int, hi as int),
{
    let mut out = String::new();
    push_range(&mut out, src, lo, hi);
    out
}

/// Whether `s[lo..hi]` is the text `lit`.
pub fn range_equals(s: &Vec<char>, lo: usize, hi: usize, lit: &str) -> (b: bool)
    requires
        lo <= hi <= s@.len(),
    ensures
        b == (s@.subrange(lo as int, hi as int) == lit@),
{
    let l = chars_of(lit);
    if hi - lo != l.len() {
        return false;
    }
    let mut i: usize = 0;
    while i < l.len()
        invariant
            lo <= hi <= s@.len(),
            hi - lo == l@.len(),
            l@ == lit@,
            i <= l@.len(),
            forall|j: int| 0 <= j < i ==> s@[lo + j] == l@[j],
        decreases l@.len() - i,
    {
        if s[lo + i] != l[i] {
            assert(s@.subrange(lo as int, hi as int)[i as int] != lit@[i as int]);
            return false;
        }
        i = i + 1;
    }
    assert(s@.subrange(lo as int, hi as int) =~= lit@);
    true
}

} // verus!
