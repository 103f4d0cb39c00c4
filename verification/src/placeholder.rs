//! Finding citations in chapter text.
//!
//! Two forms are recognised:
//!
//! * `{{ #cite key }}`: two opening braces, optional white space, `#`, a type
//!   made of letters, digits and `_`, at least one white space, a target of
//!   letters, digits, white space and `_ . - : / \ +`, then two closing braces.
//!   Every such link is consumed by the scan, but only those of type `cite`
//!   are citations; the key is the target without surrounding white space.
//! * `@@key`: two `@` followed by a non-empty key of letters, digits and
//!   `_ - : / +`.
//!
//! Positions are positions of characters in the text.
use vstd::prelude::*;
use crate::text::{
    all_space, chars_of, in_class, is_space, is_space_char, lemma_run_end, lemma_run_exact, lemma_trim_edges,
    lemma_trim_spaces, range_equals, run_end, scan_run,
    string_of_range, trim, trim_bounds, CharClass,
};

verus! {

/// What a citation refers to, with its key.
#[derive(Clone, Debug, PartialEq, Eq)]
pub enum PlaceholderType {
    /// A `{{ #cite key }}` citation.
    Cite(String),
    /// An `@@key` citation.
    AtCite(String),
}

/// A citation found in a text: its kind and key, the text it spans, and
/// where it starts and ends (exclusive).
#[derive(Clone, Debug)]
pub struct Placeholder {
    pub placeholder_type: PlaceholderType,
    pub placeholder_text: String,
    pub start_index: usize,
    pub end_index: usize,
}

/// The mathematical value of a found citation.
pub struct PlaceholderView {
    pub at_form: bool,
    pub key: Seq<char>,
    pub start: int,
    pub end: int,
}

impl Placeholder {
    pub open spec fn key(&self) -> Seq<char> {
        match self.placeholder_type {
            PlaceholderType::Cite(k) => k@,
            PlaceholderType::AtCite(k) => k@,
        }
    }

    pub open spec fn spec_view(&self) -> PlaceholderView {
        PlaceholderView {
            at_form: self.placeholder_type is AtCite,
            key: self.key(),
            start: self.start_index as int,
            end: self.end_index as int,
        }
    }
}

impl Placeholder {
    /// The key cited.
    pub fn cite_key(&self) -> (r: &String)
        ensures
            r@ == self.key(),
    {
        match &self.placeholder_type {
            PlaceholderType::Cite(k) => k,
            PlaceholderType::AtCite(k) => k,
        }
    }
}

impl View for Placeholder {
    type V = PlaceholderView;

    open spec fn view(&self) -> PlaceholderView {
        self.spec_view()
    }
}

pub open spec fn views_of(v: Seq<Placeholder>) -> Seq<PlaceholderView> {
    v.map_values(|p: Placeholder| p@)
}

/// Each found citation carries the text that it spans.
pub open spec fn texts_agree(s: Seq<char>, v: Seq<Placeholder>) -> bool {
    forall|k: int|
        0 <= k < v.len() ==> 0 <= (#[trigger] v[k]).start_index <= v[k].end_index <= s.len()
            && v[k].placeholder_text@ == s.subrange(
            v[k].start_index as int,
            v[k].end_index as int,
        )
}

// ---------------------------------------------------------------------------
// `{{ #type target }}` links
/// Where the `#` of a link opened at `i` must stand.
pub open spec fn hash_pos(s: Seq<char>, i: int) -> int {
    run_end(s, i + 2, CharClass::Space)
}

/// The end of the link's type.
pub open spec fn type_end(s: Seq<char>, i: int) -> int {
    run_end(s, hash_pos(s, i) + 1, CharClass::Word)
}

/// The end of the link's target (white space after the type included).
pub open spec fn target_end(s: Seq<char>, i: int) -> int {
    run_end(s, type_end(s, i), CharClass::Target)
}

/// A complete `{{ #type target }}` link starts at `i`.
pub open spec fn is_link_at(s: Seq<char>, i: int) -> bool {
    let h = hash_pos(s, i);
    let te = type_end(s, i);
    let r = target_end(s, i);
    &&& 0 <= i && i + 1 < s.len() && s[i] == '{' && s[i + 1] == '{'
    &&& h < s.len() && s[h] == '#'
    &&& te > h + 1
    &&& te < s.len() && is_space(s[te])
    &&& r > te + 1
    &&& r + 1 < s.len() && s[r] == '}' && s[r + 1] == '}'
}

pub open spec fn link_end(s: Seq<char>, i: int) -> int {
    target_end(s, i) + 2
}

pub open spec fn link_type(s: Seq<char>, i: int) -> Seq<char> {
    s.subrange(hash_pos(s, i) + 1, type_end(s, i))
}

pub open spec fn link_key(s: Seq<char>, i: int) -> Seq<char> {
    trim(s.subrange(type_end(s, i), target_end(s, i)))
}

/// A link starting at `i` lies inside the text and ends after it starts.
pub proof fn lemma_link_bounds(s: Seq<char>, i: int)
    requires
        is_link_at(s, i),
    ensures
        i + 6 <= link_end(s, i) <= s.len(),
{
    lemma_run_end(s, i + 2, CharClass::Space);
}

/// The `{{ #cite key }}` citations of `s` from position `i` on, in order.
pub open spec fn cite_placeholders_from(s: Seq<char>, i: int) -> Seq<PlaceholderView>
    decreases s.len() - i,
{
    if i < 0 || i >= s.len() {
        Seq::empty()
    } else if is_link_at(s, i) {
        proof {
            lemma_link_bounds(s, i);
        }
        let rest = cite_placeholders_from(s, link_end(s, i));
        if link_type(s, i) == "cite"@ {
            seq![PlaceholderView { at_form: false, key: link_key(s, i), start: i, end: link_end(s, i) }]
                + rest
        } else {
            rest
        }
    } else {
        cite_placeholders_from(s, i + 1)
    }
}

/// The result of matching a link at a position.
struct LinkMatch {
    end: usize,
    is_cite: bool,
    key_lo: usize,
    key_hi: usize,
}

fn match_link(s: &Vec<char>, i: usize) -> (r: Option<LinkMatch>)
    requires
        i < s@.len(),
    ensures
        r is Some <==> is_link_at(s@, i as int),
        r matches Some(m) ==> {
            &&& m.end as int == link_end(s@, i as int)
            &&& m.is_cite == (link_type(s@, i as int) == "cite"@)
            &&& m.key_lo <= m.key_hi <= s@.len()
            &&& s@.subrange(m.key_lo as int, m.key_hi as int) == link_key(s@, i as int)
        },
{
    let n = s.len();
    if !(i + 1 < n && s[i] == '{' && s[i + 1] == '{') {
        return None;
    }
    let h = scan_run(s, i + 2, CharClass::Space);
    if !(h < n && s[h] == '#') {
        return None;
    }
    let te = scan_run(s, h + 1, CharClass::Word);
    if !(te > h + 1 && te < n && is_space_char(s[te])) {
        return None;
    }
    let r = scan_run(s, te, CharClass::Target);
    if !(r > te + 1 && r < n && r + 1 < n && s[r] == '}' && s[r + 1] == '}') {
        return None;
    }
    let is_cite = range_equals(s, h + 1, te, "cite");
    let (key_lo, key_hi) = trim_bounds(s, te, r);
    Some(LinkMatch { end: r + 2, is_cite, key_lo, key_hi })
}

/// Finds the `{{ #cite key }}` citations of `text`, in order. Links of
/// other types are passed over.
pub fn find_placeholders(text: &str) -> (r: Vec<Placeholder>)
    ensures
        views_of(r@) == cite_placeholders_from(text@, 0),
        texts_agree(text@, r@),
        forall|k: int| 0 <= k < r@.len() ==> (#[trigger] r@[k]).placeholder_type is Cite,
{
    let s = chars_of(text);
    let mut out: Vec<Placeholder> = Vec::new();
    let mut i: usize = 0;
    while i < s.len()
        invariant
            s@ == text@,
            i <= s@.len(),
            views_of(out@) + cite_placeholders_from(s@, i as int) == cite_placeholders_from(
                s@,
                0,
            ),
            texts_agree(s@, out@),
            forall|k: int| 0 <= k < out@.len() ==> (#[trigger] out@[k]).placeholder_type is Cite,
        decreases s@.len() - i,
    {
        match match_link(&s, i) {
            Some(m) => {
                proof {
                    lemma_link_bounds(s@, i as int);
                }
                if m.is_cite {
                    let key = string_of_range(&s, m.key_lo, m.key_hi);
                    let ptext = string_of_range(&s, i, m.end);
                    let p = Placeholder {
                        placeholder_type: PlaceholderType::Cite(key),
                        placeholder_text: ptext,
                        start_index: i,
                        end_index: m.end,
                    };
                    let ghost old_out = out@;
                    out.push(p);
                    assert(views_of(out@) =~= views_of(old_out).push(p@));
                    assert(views_of(out@) + cite_placeholders_from(s@, m.end as int) =~= views_of(
                        old_out,
                    ) + cite_placeholders_from(s@, i as int));
                }
                i = m.end;
            },
            None => {
                i = i + 1;
            },
        }
    }
    assert(views_of(out@) + cite_placeholders_from(s@, i as int) =~= views_of(out@));
    out
}

// ---------------------------------------------------------------------------
// `@@key` citations
/// An `@@key` citation starts at `i`.
pub open spec fn is_at_cite_at(s: Seq<char>, i: int) -> bool {
    0 <= i && i + 1 < s.len() && s[i] == '@' && s[i + 1] == '@' && run_end(
        s,
        i + 2,
        CharClass::AtKey,
    ) > i + 2
}

pub open spec fn at_cite_end(s: Seq<char>, i: int) -> int {
    run_end(s, i + 2, CharClass::AtKey)
}

/// The `@@key` citations of `s` from position `i` on, in order.
pub open spec fn at_placeholders_from(s: Seq<char>, i: int) -> Seq<PlaceholderView>
    decreases s.len() - i,
{
    if i < 0 || i >= s.len() {
        Seq::empty()
    } else if is_at_cite_at(s, i) {
        proof {
            lemma_run_end(s, i + 2, CharClass::AtKey);
        }
        seq![
            PlaceholderView {
                at_form: true,
                key: s.subrange(i + 2, at_cite_end(s, i)),
                start: i,
                end: at_cite_end(s, i),
            },
        ] + at_placeholders_from(s, at_cite_end(s, i))
    } else {
        at_placeholders_from(s, i + 1)
    }
}

/// Finds the `@@key` citations of `text`, in order.
pub fn find_at_placeholders(text: &str) -> (r: Vec<Placeholder>)
    ensures
        views_of(r@) == at_placeholders_from(text@, 0),
        texts_agree(text@, r@),
        forall|k: int| 0 <= k < r@.len() ==> (#[trigger] r@[k]).placeholder_type is AtCite,
{
    let s = chars_of(text);
    let mut out: Vec<Placeholder> = Vec::new();
    let mut i: usize = 0;
    while i < s.len()
        invariant
            s@ == text@,
            i <= s@.len(),
            views_of(out@) + at_placeholders_from(s@, i as int) == at_placeholders_from(s@, 0),
            texts_agree(s@, out@),
            forall|k: int|
                0 <= k < out@.len() ==> (#[trigger] out@[k]).placeholder_type is AtCite,
        decreases s@.len() - i,
    {
        if i + 1 < s.len() && s[i] == '@' && s[i + 1] == '@' {
            let e = scan_run(&s, i + 2, CharClass::AtKey);
            if e > i + 2 {
                let key = string_of_range(&s, i + 2, e);
                let ptext = string_of_range(&s, i, e);
                let p = Placeholder {
                    placeholder_type: PlaceholderType::AtCite(key),
                    placeholder_text: ptext,
                    start_index: i,
                    end_index: e,
                };
                let ghost old_out = out@;
                out.push(p);
                assert(views_of(out@) =~= views_of(old_out).push(p@));
                assert(views_of(out@) + at_placeholders_from(s@, e as int) =~= views_of(old_out)
                    + at_placeholders_from(s@, i as int));
                i = e;
            } else {
                i = i + 1;
            }
        } else {
            i = i + 1;
        }
    }
    assert(views_of(out@) + at_placeholders_from(s@, i as int) =~= views_of(out@));
    out
}

// ---------------------------------------------------------------------------
// Laws
/// The citations found in a text lie inside it, in order, and do not
/// overlap: each starts at or after `i`, ends after it starts, and the next
/// one starts at or after the end of the one before.
pub open spec fn well_placed(s: Seq<char>, i: int, v: Seq<PlaceholderView>) -> bool {
    &&& forall|k: int|
        0 <= k < v.len() ==> i <= (#[trigger] v[k]).start < v[k].end <= s.len()
    &&& forall|k: int| 0 <= k < v.len() - 1 ==> (#[trigger] v[k]).end <= v[k + 1].start
}

/// The `{{ #cite key }}` citations found from any position are well placed,
/// each spans a `{{ #cite ... }}` link, and each key carries no white space
/// at either end.
pub proof fn cite_placeholders_are_well_placed(s: Seq<char>, i: int)
    requires
        0 <= i,
    ensures
        well_placed(s, i, cite_placeholders_from(s, i)),
        forall|k: int|
            0 <= k < cite_placeholders_from(s, i).len() ==> {
                let p = #[trigger] cite_placeholders_from(s, i)[k];
                &&& is_link_at(s, p.start)
                &&& link_type(s, p.start) == "cite"@
                &&& p.end == link_end(s, p.start)
                &&& p.key == link_key(s, p.start)
                &&& !p.at_form
                &&& p.key.len() > 0 ==> !is_space(p.key[0]) && !is_space(p.key.last())
            },
    decreases s.len() - i,
{
    if i < s.len() {
        if is_link_at(s, i) {
            lemma_link_bounds(s, i);
            cite_placeholders_are_well_placed(s, link_end(s, i));
            let rest = cite_placeholders_from(s, link_end(s, i));
            if link_type(s, i) == "cite"@ {
                let v = cite_placeholders_from(s, i);
                assert forall|k: int| 0 <= k < v.len() - 1 implies (#[trigger] v[k]).end
                    <= v[k + 1].start by {
                    if k > 0 {
                        assert(v[k] == rest[k - 1]);
                        assert(v[k + 1] == rest[k]);
                    }
                }
                assert forall|k: int| 0 <= k < v.len() implies i <= (#[trigger] v[k]).start
                    < v[k].end <= s.len() by {
                    if k > 0 {
                        assert(v[k] == rest[k - 1]);
                    }
                }
                assert forall|k: int| 0 <= k < v.len() implies {
                    let p = #[trigger] v[k];
                    &&& is_link_at(s, p.start)
                    &&& link_type(s, p.start) == "cite"@
                    &&& p.end == link_end(s, p.start)
                    &&& p.key == link_key(s, p.start)
                    &&& !p.at_form
                    &&& p.key.len() > 0 ==> !is_space(p.key[0]) && !is_space(p.key.last())
                } by {
                    if k > 0 {
                        assert(v[k] == rest[k - 1]);
                    } else {
                        lemma_trim_edges(s.subrange(type_end(s, i), target_end(s, i)));
                    }
                }
            }
        } else {
            cite_placeholders_are_well_placed(s, i + 1);
        }
    }
}

/// The `@@key` citations found from any position are well placed, and
/// each key is a non-empty run of key characters that starts right after
/// the `@@` and is not followed by another key character.
pub proof fn at_placeholders_are_well_placed(s: Seq<char>, i: int)
    requires
        0 <= i,
    ensures
        well_placed(s, i, at_placeholders_from(s, i)),
        forall|k: int|
            0 <= k < at_placeholders_from(s, i).len() ==> {
                let p = #[trigger] at_placeholders_from(s, i)[k];
                &&& is_at_cite_at(s, p.start)
                &&& p.end == at_cite_end(s, p.start)
                &&& p.key == s.subrange(p.start + 2, p.end)
                &&& p.at_form
            },
    decreases s.len() - i,
{
    if i < s.len() {
        if is_at_cite_at(s, i) {
            lemma_run_end(s, i + 2, CharClass::AtKey);
            at_placeholders_are_well_placed(s, at_cite_end(s, i));
            let rest = at_placeholders_from(s, at_cite_end(s, i));
            let v = at_placeholders_from(s, i);
            assert forall|k: int| 0 <= k < v.len() - 1 implies (#[trigger] v[k]).end
                <= v[k + 1].start by {
                if k > 0 {
                    assert(v[k] == rest[k - 1]);
                    assert(v[k + 1] == rest[k]);
                }
            }
            assert forall|k: int| 0 <= k < v.len() implies i <= (#[trigger] v[k]).start
                < v[k].end <= s.len() by {
                if k > 0 {
                    assert(v[k] == rest[k - 1]);
                }
            }
            assert forall|k: int| 0 <= k < v.len() implies {
                let p = #[trigger] v[k];
                &&& is_at_cite_at(s, p.start)
                &&& p.end == at_cite_end(s, p.start)
                &&& p.key == s.subrange(p.start + 2, p.end)
                &&& p.at_form
            } by {
                if k > 0 {
                    assert(v[k] == rest[k - 1]);
                }
            }
        } else {
            at_placeholders_are_well_placed(s, i + 1);
        }
    }
}

/// Every `@@key` citation at or after `i` is found by the scan from `i`:
/// no citation that the scan meets before it can swallow it, since a key
/// never holds `@`.
pub proof fn at_cite_is_found(s: Seq<char>, i: int, p: int)
    requires
        0 <= i <= p,
        is_at_cite_at(s, p),
    ensures
        exists|j: int|
            0 <= j < at_placeholders_from(s, i).len() && (#[trigger] at_placeholders_from(
                s,
                i,
            )[j]).start == p,
    decreases p - i,
{
    if i == p {
        lemma_run_end(s, i + 2, CharClass::AtKey);
        assert(at_placeholders_from(s, i).len() > 0);
        assert(at_placeholders_from(s, i)[0].start == p);
    } else if is_at_cite_at(s, i) {
        lemma_run_end(s, i + 2, CharClass::AtKey);
        let e = at_cite_end(s, i);
        if p == i + 1 {
            assert(!in_class(CharClass::AtKey, s[p + 1]));
            assert(false);
        }
        assert(!in_class(CharClass::AtKey, s[p]));
        assert(e <= p);
        at_cite_is_found(s, e, p);
        let rest = at_placeholders_from(s, e);
        let j = choose|j: int| 0 <= j < rest.len() && (#[trigger] rest[j]).start == p;
        assert(at_placeholders_from(s, i)[j + 1] == rest[j]);
    } else {
        at_cite_is_found(s, i + 1, p);
        let rest = at_placeholders_from(s, i + 1);
        assert(at_placeholders_from(s, i) == rest);
        let j = choose|j: int| 0 <= j < rest.len() && (#[trigger] rest[j]).start == p;
        assert(at_placeholders_from(s, i)[j] == rest[j]);
    }
}

/// A link `{{ #cite key }}` written alone is one citation of its key, whatever
/// the white space: none or some between the braces and `#`, some between
/// `cite` and the key, none or some before the closing braces. It spans the
/// whole text, and its key is the target without that white space.
pub proof fn cite_link_is_one_citation(
    ws1: Seq<char>,
    ws2: Seq<char>,
    key: Seq<char>,
    ws3: Seq<char>,
)
    requires
        all_space(ws1),
        all_space(ws2),
        ws2.len() > 0,
        all_space(ws3),
        key.len() > 0,
        forall|j: int| 0 <= j < key.len() ==> in_class(CharClass::Target, #[trigger] key[j]),
        !is_space(key[0]),
        !is_space(key.last()),
    ensures
        ({
            let s = "{{"@ + ws1 + "#cite"@ + ws2 + key + ws3 + "}}"@;
            cite_placeholders_from(s, 0) == seq![
                PlaceholderView { at_form: false, key: key, start: 0, end: s.len() as int },
            ]
        }),
{
    reveal_strlit("{{");
    reveal_strlit("#cite");
    reveal_strlit("}}");
    reveal_strlit("cite");
    let s = "{{"@ + ws1 + "#cite"@ + ws2 + key + ws3 + "}}"@;
    let l1 = ws1.len() as int;
    let h = 2 + l1;
    let te = h + 5;
    let t0 = te + ws2.len();
    let t1 = t0 + key.len();
    let r = t1 + ws3.len();
    assert(s.len() == r + 2);
    assert(s[0] == '{' && s[1] == '{');
    assert forall|m: int| 2 <= m < h implies is_space(#[trigger] s[m]) by {
        assert(s[m] == ws1[m - 2]);
    }
    assert(s[h] == '#');
    lemma_run_exact(s, 2, h, CharClass::Space);
    assert(s.subrange(h + 1, te) =~= "cite"@);
    assert forall|m: int| h + 1 <= m < te implies in_class(CharClass::Word, #[trigger] s[m]) by {
        assert(s[m] == "cite"@[m - h - 1]);
    }
    assert(s[te] == ws2[0]);
    lemma_run_exact(s, h + 1, te, CharClass::Word);
    assert forall|m: int| te <= m < r implies in_class(CharClass::Target, #[trigger] s[m]) by {
        if m < t0 {
            assert(s[m] == ws2[m - te]);
        } else if m < t1 {
            assert(s[m] == key[m - t0]);
        } else {
            assert(s[m] == ws3[m - t1]);
        }
    }
    assert(s[r] == '}' && s[r + 1] == '}');
    lemma_run_exact(s, te, r, CharClass::Target);
    assert(is_link_at(s, 0));
    assert(link_type(s, 0) =~= "cite"@);
    assert(s.subrange(te, r) =~= ws2 + key + ws3);
    lemma_trim_spaces(ws2, key, ws3);
    assert(link_key(s, 0) == key);
    assert(cite_placeholders_from(s, r + 2) =~= Seq::<PlaceholderView>::empty());
    assert(cite_placeholders_from(s, 0) =~= seq![
        PlaceholderView { at_form: false, key: key, start: 0, end: s.len() as int },
    ]);
}

/// A text without `{` holds no `{{ #cite key }}` citation.
pub proof fn no_brace_no_cite(s: Seq<char>, i: int)
    requires
        0 <= i,
        forall|j: int| 0 <= j < s.len() ==> s[j] != '{',
    ensures
        cite_placeholders_from(s, i) == Seq::<PlaceholderView>::empty(),
    decreases s.len() - i,
{
    if i < s.len() {
        no_brace_no_cite(s, i + 1);
    }
}

/// A text without `@` holds no `@@key` citation.
pub proof fn no_at_sign_no_at_cite(s: Seq<char>, i: int)
    requires
        0 <= i,
        forall|j: int| 0 <= j < s.len() ==> s[j] != '@',
    ensures
        at_placeholders_from(s, i) == Seq::<PlaceholderView>::empty(),
    decreases s.len() - i,
{
    if i < s.len() {
        no_at_sign_no_at_cite(s, i + 1);
    }
}

} // verus!
