//! The bibliography item made from the fields of a BibTeX entry: its
//! date, its short author line and the optional fields that the rendered
//! bibliography shows.
use vstd::prelude::*;
use crate::strmap::StrMap;
use crate::text::{
    all_space, chars_of, in_class, lemma_run_end, lemma_run_exact, lemma_run_shift, is_space, is_space_char, push_range, run_end, scan_run,
    string_of_range, trim, trim_bounds, CharClass,
};

verus! {

/// The fields of a BibTeX entry: field name to value.
pub type Tags = StrMap<String>;

/// The text a missing field is shown as.
pub open spec fn not_available() -> Seq<char> {
    "N/A"@
}

/// Splits a date `YYYY-MM-...` into year and month: the year is what comes
/// before the first `-` (or all of it), the month what comes between the
/// first and the second `-`, or `N/A` where there is no `-`.
pub open spec fn date_parts(d: Seq<char>) -> (Seq<char>, Seq<char>) {
    let y = run_end(d, 0, CharClass::NotDash);
    if y < d.len() {
        (d.subrange(0, y), d.subrange(y + 1, run_end(d, y + 1, CharClass::NotDash)))
    } else {
        (d, not_available())
    }
}

/// Year and month of an entry: from its `date` field where it has one, else
/// from its `year` and `month` fields, each `N/A` where missing.
pub open spec fn spec_extract_date(tm: Map<Seq<char>, Seq<char>>) -> (Seq<char>, Seq<char>) {
    if tm.contains_key("date"@) {
        date_parts(tm["date"@])
    } else {
        (
            if tm.contains_key("year"@) {
                tm["year"@]
            } else {
                not_available()
            },
            if tm.contains_key("month"@) {
                tm["month"@]
            } else {
                not_available()
            },
        )
    }
}

fn na_string() -> (r: String)
    ensures
        r@ == not_available(),
{
    "N/A".to_owned()
}

/// The value of field `name`, or `N/A`.
fn tag_or_na(tm: &Tags, name: &str) -> (r: String)
    requires
        tm.wf(),
    ensures
        r@ == if tm@.contains_key(name@) {
            tm@[name@]
        } else {
            not_available()
        },
{
    match tm.get(name) {
        Some(v) => v.clone(),
        None => na_string(),
    }
}

/// Extracts the publication year and month of an entry, in that order.
pub fn extract_date(tm: &Tags) -> (r: (String, String))
    requires
        tm.wf(),
    ensures
        (r.0@, r.1@) == spec_extract_date(tm@),
{
    match tm.get("date") {
        Some(date) => {
            let d = chars_of(date.as_str());
            let y = scan_run(&d, 0, CharClass::NotDash);
            if y < d.len() {
                let m = scan_run(&d, y + 1, CharClass::NotDash);
                (string_of_range(&d, 0, y), string_of_range(&d, y + 1, m))
            } else {
                proof {
                    assert(d@.subrange(0, d@.len() as int) =~= d@);
                }
                (date.clone(), na_string())
            }
        },
        None => (tag_or_na(tm, "year"), tag_or_na(tm, "month")),
    }
}

// ---------------------------------------------------------------------------
// Authors
/// At `j` starts a separator between two authors: white space, `and`,
/// white space.
pub open spec fn and_sep_at(s: Seq<char>, j: int) -> bool {
    let w = run_end(s, j, CharClass::Space);
    &&& 0 <= j < s.len() && is_space(s[j])
    &&& w + 3 < s.len() && s[w] == 'a' && s[w + 1] == 'n' && s[w + 2] == 'd' && is_space(
        s[w + 3],
    )
}

/// Where the separator that starts at `j` ends.
pub open spec fn and_sep_end(s: Seq<char>, j: int) -> int {
    run_end(s, run_end(s, j, CharClass::Space) + 3, CharClass::Space)
}

/// A separator lies inside the text and ends after it starts.
pub proof fn lemma_and_sep(s: Seq<char>, j: int)
    requires
        and_sep_at(s, j),
    ensures
        j + 4 <= and_sep_end(s, j) <= s.len(),
{
    lemma_run_end(s, j, CharClass::Space);
    lemma_run_end(s, run_end(s, j, CharClass::Space) + 3, CharClass::Space);
}

/// The authors of an author field, split at the separators; the piece being
/// read starts at `start`, and the scan is at `j`.
pub open spec fn author_pieces(s: Seq<char>, start: int, j: int) -> Seq<Seq<char>>
    decreases s.len() - j,
{
    if j < 0 || j >= s.len() {
        seq![s.subrange(start, s.len() as int)]
    } else if and_sep_at(s, j) {
        proof {
            lemma_and_sep(s, j);
        }
        seq![s.subrange(start, j)] + author_pieces(s, and_sep_end(s, j), and_sep_end(s, j))
    } else {
        author_pieces(s, start, j + 1)
    }
}

/// The surname of one author: what comes before the first comma
/// (`Surname, Given`), or else the first word.
pub open spec fn surname(p: Seq<char>) -> Seq<char> {
    let t = trim(p);
    let c = run_end(t, 0, CharClass::NotComma);
    if c < t.len() {
        trim(t.subrange(0, c))
    } else {
        t.subrange(0, run_end(t, 0, CharClass::NonSpace))
    }
}

/// The short author line: one surname, two joined by ` & `, or the first
/// followed by ` et al.` where there are three or more authors.
pub open spec fn format_authors(s: Seq<char>) -> Seq<char> {
    let ps = author_pieces(s, 0, 0);
    if ps.len() == 1 {
        surname(ps[0])
    } else if ps.len() == 2 {
        surname(ps[0]) + " & "@ + surname(ps[1])
    } else {
        surname(ps[0]) + " et al."@
    }
}

fn sub_vec(s: &Vec<char>, lo: usize, hi: usize) -> (r: Vec<char>)
    requires
        lo <= hi <= s@.len(),
    ensures
        r@ == s@.subrange(lo as int, hi as int),
{
    let mut r: Vec<char> = Vec::new();
    let mut i = lo;
    while i < hi
        invariant
            lo <= i <= hi <= s@.len(),
            r@ == s@.subrange(lo as int, i as int),
        decreases hi - i,
    {
        r.push(s[i]);
        assert(r@ =~= s@.subrange(lo as int, i + 1));
        i = i + 1;
    }
    r
}

fn surname_of(p: &Vec<char>) -> (r: String)
    ensures
        r@ == surname(p@),
{
    let (a, b) = trim_bounds(p, 0, p.len());
    assert(p@.subrange(0, p@.len() as int) =~= p@);
    let t = sub_vec(p, a, b);
    let c = scan_run(&t, 0, CharClass::NotComma);
    if c < t.len() {
        let (x, y) = trim_bounds(&t, 0, c);
        string_of_range(&t, x, y)
    } else {
        let w = scan_run(&t, 0, CharClass::NonSpace);
        string_of_range(&t, 0, w)
    }
}

/// Formats an author field into the short author line.
pub fn authors_line(field: &str) -> (r: String)
    ensures
        r@ == format_authors(field@),
{
    let s = chars_of(field);
    let n = s.len();
    let mut pieces: Vec<Vec<char>> = Vec::new();
    let mut start: usize = 0;
    let mut j: usize = 0;
    while j < n
        invariant
            n == s@.len(),
            start <= j <= n,
            pieces@.map_values(|p: Vec<char>| p@) + author_pieces(s@, start as int, j as int)
                == author_pieces(s@, 0, 0),
        decreases n - j,
    {
        let mut sep = false;
        if is_space_char(s[j]) {
            let w = scan_run(&s, j, CharClass::Space);
            if w < n && n - w > 3 && s[w] == 'a' && s[w + 1] == 'n' && s[w + 2] == 'd'
                && is_space_char(s[w + 3]) {
                sep = true;
                let e = scan_run(&s, w + 3, CharClass::Space);
                proof {
                    lemma_and_sep(s@, j as int);
                }
                let piece = sub_vec(&s, start, j);
                let ghost before = pieces@.map_values(|p: Vec<char>| p@);
                pieces.push(piece);
                assert(pieces@.map_values(|p: Vec<char>| p@) =~= before.push(piece@));
                assert(before + author_pieces(s@, start as int, j as int) =~= pieces@.map_values(
                    |p: Vec<char>| p@,
                ) + author_pieces(s@, e as int, e as int));
                start = e;
                j = e;
            }
        }
        if !sep {
            j = j + 1;
        }
    }
    let last = sub_vec(&s, start, n);
    let ghost before = pieces@.map_values(|p: Vec<char>| p@);
    pieces.push(last);
    assert(pieces@.map_values(|p: Vec<char>| p@) =~= author_pieces(s@, 0, 0));
    let ghost ps = author_pieces(s@, 0, 0);
    assert(pieces@[0]@ == ps[0]);
    let mut out = surname_of(&pieces[0]);
    if pieces.len() == 2 {
        assert(pieces@[1]@ == ps[1]);
        out.append(" & ");
        let second = surname_of(&pieces[1]);
        out.append(second.as_str());
    } else if pieces.len() > 2 {
        out.append(" et al.");
    }
    out
}

// ---------------------------------------------------------------------------
// Items
/// An entry of the bibliography, ready to be cited and rendered.
#[derive(Clone, Debug)]
pub struct BibItem {
    pub citation_key: String,
    pub title: String,
    pub authors: String,
    pub pub_month: String,
    pub pub_year: String,
    pub summary: String,
    pub url: Option<String>,
    pub publisher: Option<String>,
    pub journal: Option<String>,
    pub address: Option<String>,
    pub volume: Option<String>,
}

/// The mathematical value of a bibliography item.
pub struct BibItemView {
    pub citation_key: Seq<char>,
    pub title: Seq<char>,
    pub authors: Seq<char>,
    pub pub_month: Seq<char>,
    pub pub_year: Seq<char>,
    pub summary: Seq<char>,
    pub url: Option<Seq<char>>,
    pub publisher: Option<Seq<char>>,
    pub journal: Option<Seq<char>>,
    pub address: Option<Seq<char>>,
    pub volume: Option<Seq<char>>,
}

pub open spec fn opt_view(o: Option<String>) -> Option<Seq<char>> {
    match o {
        Some(s) => Some(s@),
        None => None,
    }
}

impl View for BibItem {
    type V = BibItemView;

    open spec fn view(&self) -> BibItemView {
        BibItemView {
            citation_key: self.citation_key@,
            title: self.title@,
            authors: self.authors@,
            pub_month: self.pub_month@,
            pub_year: self.pub_year@,
            summary: self.summary@,
            url: opt_view(self.url),
            publisher: opt_view(self.publisher),
            journal: opt_view(self.journal),
            address: opt_view(self.address),
            volume: opt_view(self.volume),
        }
    }
}

/// The value of an optional field.
pub open spec fn opt_tag(tm: Map<Seq<char>, Seq<char>>, name: Seq<char>) -> Option<Seq<char>> {
    if tm.contains_key(name) {
        Some(tm[name])
    } else {
        None
    }
}

/// The item made from an entry with key `key` and fields `tm`: title and
/// author line (`N/A` where missing), the date, the abstract as summary
/// (empty where missing), and the optional fields as they are.
pub open spec fn item_of(key: Seq<char>, tm: Map<Seq<char>, Seq<char>>) -> BibItemView {
    BibItemView {
        citation_key: key,
        title: if tm.contains_key("title"@) {
            tm["title"@]
        } else {
            not_available()
        },
        authors: format_authors(
            if tm.contains_key("author"@) {
                tm["author"@]
            } else {
                not_available()
            },
        ),
        pub_month: spec_extract_date(tm).1,
        pub_year: spec_extract_date(tm).0,
        summary: if tm.contains_key("abstract"@) {
            tm["abstract"@]
        } else {
            Seq::empty()
        },
        url: opt_tag(tm, "url"@),
        publisher: opt_tag(tm, "publisher"@),
        journal: opt_tag(tm, "journal"@),
        address: opt_tag(tm, "address"@),
        volume: opt_tag(tm, "volume"@),
    }
}

fn optional_tag(tm: &Tags, name: &str) -> (r: Option<String>)
    requires
        tm.wf(),
    ensures
        opt_view(r) == opt_tag(tm@, name@),
{
    match tm.get(name) {
        Some(v) => Some(v.clone()),
        None => None,
    }
}

/// Makes the bibliography item of the entry with key `key` and fields `tm`.
pub fn bib_item_from(key: String, tm: &Tags) -> (r: BibItem)
    requires
        tm.wf(),
    ensures
        r@ == item_of(key@, tm@),
{
    let title = tag_or_na(tm, "title");
    let author_field = tag_or_na(tm, "author");
    let authors = authors_line(author_field.as_str());
    let (pub_year, pub_month) = extract_date(tm);
    let summary = match tm.get("abstract") {
        Some(v) => v.clone(),
        None => String::new(),
    };
    BibItem {
        citation_key: key,
        title,
        authors,
        pub_month,
        pub_year,
        summary,
        url: optional_tag(tm, "url"),
        publisher: optional_tag(tm, "publisher"),
        journal: optional_tag(tm, "journal"),
        address: optional_tag(tm, "address"),
        volume: optional_tag(tm, "volume"),
    }
}

// ---------------------------------------------------------------------------
// Laws
/// A `date` field decides year and month whatever the `year` and `month`
/// fields say.
pub proof fn date_field_takes_precedence(
    tm: Map<Seq<char>, Seq<char>>,
    year: Seq<char>,
    month: Seq<char>,
)
    requires
        tm.contains_key("date"@),
    ensures
        spec_extract_date(tm.insert("year"@, year).insert("month"@, month))
            == spec_extract_date(tm),
{
    reveal_strlit("date");
    reveal_strlit("year");
    reveal_strlit("month");
    assert("date"@[0] != "year"@[0]);
    assert("date"@[0] != "month"@[0]);
    let tm2 = tm.insert("year"@, year).insert("month"@, month);
    assert(tm2.contains_key("date"@));
    assert(tm2["date"@] == tm["date"@]);
}

/// A date without `-` is all year, and its month is `N/A`.
pub proof fn date_without_dash_is_a_year(d: Seq<char>)
    requires
        forall|i: int| 0 <= i < d.len() ==> d[i] != '-',
    ensures
        date_parts(d) == (d, not_available()),
{
    lemma_run_end(d, 0, CharClass::NotDash);
    if run_end(d, 0, CharClass::NotDash) < d.len() {
        assert(d[run_end(d, 0, CharClass::NotDash)] != '-');
    }
}

/// An author field without separators names one author, whose surname is
/// the whole line.
pub proof fn single_author_is_its_surname(s: Seq<char>)
    requires
        forall|j: int| 0 <= j < s.len() ==> !and_sep_at(s, j),
    ensures
        format_authors(s) == surname(s),
{
    lemma_no_sep_from(s, 0, 0);
    assert(s.subrange(0, s.len() as int) =~= s);
}

/// Two authors joined by `and` with white space of any kind on either side
/// (spaces, tabs, line breaks, as when a long author field is wrapped after
/// each `and`) are read as two authors, and the short line names both.
/// Each of the two must hold no separator itself; the first must not end in
/// white space or in a white-space-preceded `and`, the second must not start
/// with white space (that white space belongs to the separator).
pub proof fn two_authors_split_at_any_white_space(
    a: Seq<char>,
    w1: Seq<char>,
    w2: Seq<char>,
    b: Seq<char>,
)
    requires
        a.len() > 0,
        !is_space(a.last()),
        !(a.len() >= 4 && is_space(a[a.len() - 4]) && a.subrange(a.len() - 3, a.len() as int)
            == "and"@),
        forall|j: int| 0 <= j < a.len() ==> !and_sep_at(a, j),
        b.len() > 0,
        !is_space(b[0]),
        forall|j: int| 0 <= j < b.len() ==> !and_sep_at(b, j),
        w1.len() > 0,
        all_space(w1),
        w2.len() > 0,
        all_space(w2),
    ensures
        author_pieces(a + w1 + "and"@ + w2 + b, 0, 0) == seq![a, b],
        format_authors(a + w1 + "and"@ + w2 + b) == surname(a) + " & "@ + surname(b),
{
    reveal_strlit("and");
    let s = a + w1 + "and"@ + w2 + b;
    let la = a.len() as int;
    let w = la + w1.len();
    let e = w + 3 + w2.len();
    assert(s.len() == e + b.len());
    assert forall|k: int| 0 <= k < la implies s[k] == #[trigger] a[k] by {}
    assert forall|k: int| la <= k < w implies is_space(#[trigger] s[k]) by {
        assert(s[k] == w1[k - la]);
    }
    assert(s[w] == 'a' && s[w + 1] == 'n' && s[w + 2] == 'd');
    assert forall|k: int| w + 3 <= k < e implies is_space(#[trigger] s[k]) by {
        assert(s[k] == w2[k - w - 3]);
    }
    assert forall|k: int| 0 <= k < b.len() implies s[e + k] == #[trigger] b[k] by {}
    assert(s[e] == b[0]);
    lemma_run_exact(s, la, w, CharClass::Space);
    lemma_run_exact(s, w + 3, e, CharClass::Space);
    assert(and_sep_at(s, la));
    assert(and_sep_end(s, la) == e);
    assert forall|j: int| 0 <= j < la implies !and_sep_at(s, j) by {
        if and_sep_at(s, j) {
            lemma_run_end(s, j, CharClass::Space);
            let r = run_end(s, j, CharClass::Space);
            assert(s[la - 1] == a[la - 1]);
            assert(r < la);
            assert(j < r);
            assert(s[r] == a[r]);
            assert forall|m: int| j <= m < r implies in_class(CharClass::Space, #[trigger] a[m]) by {
                assert(s[m] == a[m]);
                assert(in_class(CharClass::Space, s[m]));
            }
            lemma_run_exact(a, j, r, CharClass::Space);
            if r + 3 < la {
                assert(s[r + 1] == a[r + 1] && s[r + 2] == a[r + 2] && s[r + 3] == a[r + 3]);
                assert(and_sep_at(a, j));
            } else if r + 3 == la {
                assert(s[r + 1] == a[r + 1] && s[r + 2] == a[r + 2]);
                assert(a.subrange(la - 3, la) =~= "and"@);
                assert(s[r - 1] == a[r - 1]);
                assert(in_class(CharClass::Space, s[r - 1]));
            } else if r == la - 1 {
                assert(s[r + 1] == w1[0]);
            } else {
                assert(s[r + 2] == w1[0]);
            }
        }
    }
    lemma_no_sep_until(s, 0, 0, la);
    assert forall|j: int| e <= j < s.len() implies !and_sep_at(s, j) by {
        let i = j - e;
        lemma_run_shift(s, b, e, i, CharClass::Space);
        lemma_run_end(b, i, CharClass::Space);
        if and_sep_at(s, j) {
            let wb = run_end(b, i, CharClass::Space);
            assert(s[e + wb] == b[wb]);
            assert(s[e + wb + 1] == b[wb + 1]);
            assert(s[e + wb + 2] == b[wb + 2]);
            assert(s[e + wb + 3] == b[wb + 3]);
            assert(s[e + i] == b[i]);
            assert(and_sep_at(b, i));
        }
    }
    lemma_no_sep_from(s, e, e);
    assert(s.subrange(0, la) =~= a);
    assert(s.subrange(e, s.len() as int) =~= b);
    assert(author_pieces(s, 0, la) == seq![s.subrange(0, la)] + author_pieces(s, e, e));
    assert(author_pieces(s, 0, 0) =~= seq![a, b]);
}

/// Where no separator starts at `j` or later, the piece being read runs to
/// the end of the text.
proof fn lemma_no_sep_from(s: Seq<char>, start: int, j: int)
    requires
        0 <= start <= j,
        forall|k: int| j <= k < s.len() ==> !and_sep_at(s, k),
    ensures
        author_pieces(s, start, j) == seq![s.subrange(start, s.len() as int)],
    decreases s.len() - j,
{
    if j < s.len() {
        lemma_no_sep_from(s, start, j + 1);
    }
}

/// Where no separator starts between `j` and `m`, the scan reaches `m`
/// with the same piece being read.
proof fn lemma_no_sep_until(s: Seq<char>, start: int, j: int, m: int)
    requires
        0 <= j <= m <= s.len(),
        forall|k: int| j <= k < m ==> !and_sep_at(s, k),
    ensures
        author_pieces(s, start, j) == author_pieces(s, start, m),
    decreases m - j,
{
    if j < m {
        lemma_no_sep_until(s, start, j + 1, m);
    }
}

} // verus!
