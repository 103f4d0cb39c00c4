//! Rewriting the citations of a chapter into links to the bibliography page.
use vstd::prelude::*;
use crate::bibitem::{opt_view, BibItemView};
use crate::bibliography::Bibliography;
use crate::keyset::KeySet;
use crate::placeholder::{
    at_cite_end, at_cite_is_found, at_placeholders_are_well_placed, at_placeholders_from, cite_placeholders_are_well_placed,
    cite_placeholders_from, find_at_placeholders, find_placeholders, texts_agree, views_of,
    is_at_cite_at, well_placed, Placeholder, PlaceholderView,
};
use crate::text::{chars_of, lemma_run_end, push_range, run_end, scan_run, CharClass};

verus! {

/// What the rewriting reads of a chapter: its text, and its path relative to
/// the book's source directory (none for a draft chapter).
pub struct Chapter {
    pub content: String,
    pub path: Option<String>,
}

impl Chapter {
    /// A chapter with text `content` stored at `path`.
    pub fn new(content: String, path: &str) -> (r: Chapter)
        ensures
            r.content@ == content@,
            opt_view(r.path) == Some(path@),
    {
        Chapter { content, path: Some(path.to_owned()) }
    }

    /// A draft chapter, which has no file.
    pub fn new_draft(content: String) -> (r: Chapter)
        ensures
            r.content@ == content@,
            r.path is None,
    {
        Chapter { content, path: None }
    }
}

// ---------------------------------------------------------------------------
// The way up from a chapter to the book's root
/// The directory depth after entering the directory named `c` at depth `d`:
/// `..` goes up (not above the root), `.` and empty names stay.
pub open spec fn depth_step(d: nat, c: Seq<char>) -> nat {
    if c == ".."@ {
        if d > 0 {
            (d - 1) as nat
        } else {
            0
        }
    } else if c.len() == 0 || c == "."@ {
        d
    } else {
        d + 1
    }
}

/// The depth of the directory that holds the file at path `p` (names
/// separated by `/`), reading the names from position `i` on at depth `d`.
pub open spec fn dir_depth(p: Seq<char>, i: int, d: nat) -> nat
    decreases p.len() - i,
{
    let j = run_end(p, i, CharClass::NotSlash);
    if i < 0 || j >= p.len() {
        d
    } else {
        proof {
            lemma_run_end(p, i, CharClass::NotSlash);
        }
        dir_depth(p, j + 1, depth_step(d, p.subrange(i, j)))
    }
}

/// `../` repeated `n` times.
pub open spec fn ups(n: nat) -> Seq<char>
    decreases n,
{
    if n == 0 {
        Seq::empty()
    } else {
        ups((n - 1) as nat) + "../"@
    }
}

/// The relative way from a chapter at `path` up to the book's root.
pub open spec fn spec_path_to_root(path: Option<Seq<char>>) -> Seq<char> {
    match path {
        None => Seq::empty(),
        Some(p) => ups(dir_depth(p, 0, 0)),
    }
}

pub open spec fn opt_str_view(o: Option<&str>) -> Option<Seq<char>> {
    match o {
        Some(p) => Some(p@),
        None => None,
    }
}

/// The relative way, made of `../`, from a chapter at `path` up to the
/// book's root; empty for a draft chapter.
pub fn path_to_root(path: Option<&str>) -> (r: String)
    ensures
        r@ == spec_path_to_root(opt_str_view(path)),
{
    let mut out = String::new();
    match path {
        None => {
            return out;
        },
        Some(p) => {
            let s = chars_of(p);
            let n = s.len();
            let mut i: usize = 0;
            let mut d: usize = 0;
            loop
                invariant
                    s@ == p@,
                    n == s@.len(),
                    i <= n,
                    d <= i,
                    dir_depth(s@, 0, 0) == dir_depth(s@, i as int, d as nat),
                ensures
                    dir_depth(s@, 0, 0) == d as nat,
                decreases n - i,
            {
                let j = scan_run(&s, i, CharClass::NotSlash);
                if j >= n {
                    break;
                }
                let dots2 = j - i == 2 && s[i] == '.' && s[i + 1] == '.';
                let dots1 = j - i == 1 && s[i] == '.';
                proof {
                    let c = s@.subrange(i as int, j as int);
                    reveal_strlit("..");
                    reveal_strlit(".");
                    if dots2 {
                        assert(c =~= ".."@);
                    } else if c.len() == 2 {
                        assert(c[0] != '.' || c[1] != '.');
                        assert(c != ".."@);
                    } else {
                        assert(c.len() != ".."@.len());
                    }
                    if dots1 {
                        assert(c =~= "."@);
                    } else if c.len() == 1 {
                        assert(c[0] != '.');
                        assert(c != "."@);
                    } else {
                        assert(c.len() != "."@.len());
                    }
                }
                if dots2 {
                    if d > 0 {
                        d = d - 1;
                    }
                } else if j - i == 0 || dots1 {
                } else {
                    d = d + 1;
                }
                i = j + 1;
            }
            let mut k: usize = 0;
            while k < d
                invariant
                    k <= d,
                    out@ == ups(k as nat),
                decreases d - k,
            {
                out.append("../");
                k = k + 1;
            }
            out
        },
    }
}

// ---------------------------------------------------------------------------
// Rewriting
/// What a citation of `key` becomes: `[Authors, Year](root/bibliography.html#key)`
/// where the bibliography knows the key, a note of an unknown reference
/// otherwise.
pub open spec fn reference_text(
    key: Seq<char>,
    bib: Map<Seq<char>, BibItemView>,
    root: Seq<char>,
) -> Seq<char> {
    if bib.contains_key(key) {
        "["@ + bib[key].authors + ", "@ + bib[key].pub_year + "]("@ + root
            + "bibliography.html#"@ + key + ")"@
    } else {
        "\\[Unknown bib ref: "@ + key + "\\]"@
    }
}

/// The text `s` from position `from` on, with the citations `phs[k..]`
/// replaced by their reference texts.
pub open spec fn splice(
    s: Seq<char>,
    phs: Seq<PlaceholderView>,
    k: int,
    from: int,
    bib: Map<Seq<char>, BibItemView>,
    root: Seq<char>,
) -> Seq<char>
    decreases phs.len() - k,
{
    if k < 0 || k >= phs.len() {
        s.subrange(from, s.len() as int)
    } else {
        s.subrange(from, phs[k].start) + reference_text(phs[k].key, bib, root) + splice(
            s,
            phs,
            k + 1,
            phs[k].end,
            bib,
            root,
        )
    }
}

/// The keys of the citations `phs[..k]` that the bibliography knows.
pub open spec fn known_keys(
    phs: Seq<PlaceholderView>,
    k: int,
    bib: Map<Seq<char>, BibItemView>,
) -> Set<Seq<char>> {
    Set::new(
        |key: Seq<char>|
            bib.contains_key(key) && exists|j: int| 0 <= j < k && j < phs.len() && phs[j].key == key,
    )
}

/// The text after the first pass, which rewrites the `{{ #cite key }}`
/// citations.
pub open spec fn after_cites(
    s: Seq<char>,
    bib: Map<Seq<char>, BibItemView>,
    root: Seq<char>,
) -> Seq<char> {
    splice(s, cite_placeholders_from(s, 0), 0, 0, bib, root)
}

/// The text after both passes; the second rewrites the `@@key` citations of
/// what the first pass gave.
pub open spec fn replaced_text(
    s: Seq<char>,
    bib: Map<Seq<char>, BibItemView>,
    root: Seq<char>,
) -> Seq<char> {
    let first = after_cites(s, bib, root);
    splice(first, at_placeholders_from(first, 0), 0, 0, bib, root)
}

/// The keys cited in `s`, in either pass, that the bibliography knows.
pub open spec fn cited_keys(
    s: Seq<char>,
    bib: Map<Seq<char>, BibItemView>,
    root: Seq<char>,
) -> Set<Seq<char>> {
    let first = after_cites(s, bib, root);
    known_keys(cite_placeholders_from(s, 0), cite_placeholders_from(s, 0).len() as int, bib)
        + known_keys(at_placeholders_from(first, 0), at_placeholders_from(first, 0).len() as int, bib)
}

fn splice_into(
    s: &Vec<char>,
    phs: &Vec<Placeholder>,
    bib: &Bibliography,
    root: &String,
    cited: &mut KeySet,
    out: &mut String,
)
    requires
        bib.wf(),
        old(cited).wf(),
        well_placed(s@, 0, views_of(phs@)),
        texts_agree(s@, phs@),
    ensures
        final(cited).wf(),
        final(out)@ == old(out)@ + splice(s@, views_of(phs@), 0, 0, bib@, root@),
        final(cited)@ == old(cited)@ + known_keys(views_of(phs@), phs@.len() as int, bib@),
{
    let ghost pv = views_of(phs@);
    let mut from: usize = 0;
    let mut k: usize = 0;
    while k < phs.len()
        invariant
            pv == views_of(phs@),
            well_placed(s@, 0, pv),
            texts_agree(s@, phs@),
            k <= phs@.len(),
            from <= s@.len(),
            k < phs@.len() ==> from <= pv[k as int].start,
            bib.wf(),
            cited.wf(),
            old(out)@ + splice(s@, pv, 0, 0, bib@, root@) == out@ + splice(
                s@,
                pv,
                k as int,
                from as int,
                bib@,
                root@,
            ),
            cited@ == old(cited)@ + known_keys(pv, k as int, bib@),
        decreases phs@.len() - k,
    {
        let p = &phs[k];
        assert(pv[k as int] == p@);
        let ghost before = out@;
        let ghost cited_before = cited@;
        push_range(out, s, from, p.start_index);
        let key = p.cite_key();
        match bib.get(key.as_str()) {
            Some(item) => {
                out.append("[");
                out.append(item.authors.as_str());
                out.append(", ");
                out.append(item.pub_year.as_str());
                out.append("](");
                out.append(root.as_str());
                out.append("bibliography.html#");
                out.append(key.as_str());
                out.append(")");
                cited.insert(key.clone());
            },
            None => {
                out.append("\\[Unknown bib ref: ");
                out.append(key.as_str());
                out.append("\\]");
            },
        }
        proof {
            assert(before + splice(s@, pv, k as int, from as int, bib@, root@) =~= out@ + splice(
                s@,
                pv,
                k + 1,
                p.end_index as int,
                bib@,
                root@,
            ));
            assert(cited@ =~= old(cited)@ + known_keys(pv, k + 1, bib@)) by {
                assert forall|x: Seq<char>| #[trigger] cited@.contains(x) implies (old(cited)@
                    + known_keys(pv, k + 1, bib@)).contains(x) by {
                    if cited_before.contains(x) {
                        if !old(cited)@.contains(x) {
                            let j = choose|j: int|
                                0 <= j < k && j < pv.len() && pv[j].key == x;
                            assert(known_keys(pv, k + 1, bib@).contains(x));
                        }
                    } else {
                        assert(pv[k as int].key == x);
                    }
                }
                assert forall|x: Seq<char>|
                    #[trigger] (old(cited)@ + known_keys(pv, k + 1, bib@)).contains(
                        x,
                    ) implies cited@.contains(x) by {
                    if !old(cited)@.contains(x) {
                        let j = choose|j: int|
                            0 <= j < k + 1 && j < pv.len() && pv[j].key == x;
                        if j < k {
                            assert(known_keys(pv, k as int, bib@).contains(x));
                        }
                    }
                }
            }
        }
        from = p.end_index;
        k = k + 1;
    }
    push_range(out, s, from, s.len());
    proof {
        assert(known_keys(pv, k as int, bib@) =~= known_keys(pv, phs@.len() as int, bib@));
    }
}

/// Rewrites the citations of a chapter: first every `{{ #cite key }}`, then
/// every `@@key` of the result, each into its reference text (a link to the
/// bibliography page relative to the chapter). The keys cited that the
/// bibliography knows are added to `cited`.
pub fn replace_all_placeholders(
    chapter: &Chapter,
    bibliography: &Bibliography,
    cited: &mut KeySet,
) -> (r: String)
    requires
        bibliography.wf(),
        old(cited).wf(),
    ensures
        final(cited).wf(),
        r@ == replaced_text(
            chapter.content@,
            bibliography@,
            spec_path_to_root(opt_view(chapter.path)),
        ),
        final(cited)@ == old(cited)@ + cited_keys(
            chapter.content@,
            bibliography@,
            spec_path_to_root(opt_view(chapter.path)),
        ),
{
    let root = match &chapter.path {
        Some(p) => path_to_root(Some(p.as_str())),
        None => path_to_root(None),
    };
    let ghost rootv = root@;
    let s = chars_of(chapter.content.as_str());
    let phs = find_placeholders(chapter.content.as_str());
    proof {
        cite_placeholders_are_well_placed(s@, 0);
    }
    let mut first = String::new();
    splice_into(&s, &phs, bibliography, &root, cited, &mut first);
    let ghost cited_mid = cited@;
    let s2 = chars_of(first.as_str());
    let phs2 = find_at_placeholders(first.as_str());
    proof {
        at_placeholders_are_well_placed(s2@, 0);
    }
    let mut second = String::new();
    splice_into(&s2, &phs2, bibliography, &root, cited, &mut second);
    proof {
        assert(second@ =~= replaced_text(chapter.content@, bibliography@, rootv));
        assert(cited@ =~= old(cited)@ + cited_keys(chapter.content@, bibliography@, rootv));
    }
    second
}

// ---------------------------------------------------------------------------
// Laws
/// A text without citations of either form comes back unchanged.
pub proof fn text_without_citations_is_unchanged(
    s: Seq<char>,
    bib: Map<Seq<char>, BibItemView>,
    root: Seq<char>,
)
    requires
        cite_placeholders_from(s, 0).len() == 0,
        at_placeholders_from(s, 0).len() == 0,
    ensures
        replaced_text(s, bib, root) == s,
        cited_keys(s, bib, root) == Set::<Seq<char>>::empty(),
{
    assert(s.subrange(0, s.len() as int) =~= s);
    assert(after_cites(s, bib, root) == s);
    assert(cited_keys(s, bib, root) =~= Set::<Seq<char>>::empty());
}

/// An `@@key` citation, wherever it stands in the text that the first pass
/// gives, is recorded as cited when the bibliography knows its key, just as a
/// `{{ #cite key }}` citation is.
pub proof fn at_citation_is_recorded(
    s: Seq<char>,
    bib: Map<Seq<char>, BibItemView>,
    root: Seq<char>,
    p: int,
)
    requires
        is_at_cite_at(after_cites(s, bib, root), p),
        bib.contains_key(
            after_cites(s, bib, root).subrange(p + 2, at_cite_end(after_cites(s, bib, root), p)),
        ),
    ensures
        cited_keys(s, bib, root).contains(
            after_cites(s, bib, root).subrange(p + 2, at_cite_end(after_cites(s, bib, root), p)),
        ),
{
    let first = after_cites(s, bib, root);
    let key = first.subrange(p + 2, at_cite_end(first, p));
    let phs = at_placeholders_from(first, 0);
    at_cite_is_found(first, 0, p);
    at_placeholders_are_well_placed(first, 0);
    let j = choose|j: int| 0 <= j < phs.len() && (#[trigger] phs[j]).start == p;
    assert(phs[j].key == key);
    assert(known_keys(phs, phs.len() as int, bib).contains(key));
}

/// A chapter with no `{{ #cite key }}` citation keeps its text through the
/// first pass, so each of its own `@@key` citations of a known key is recorded.
pub proof fn at_citation_in_plain_text_is_recorded(
    s: Seq<char>,
    bib: Map<Seq<char>, BibItemView>,
    root: Seq<char>,
    p: int,
)
    requires
        cite_placeholders_from(s, 0).len() == 0,
        is_at_cite_at(s, p),
        bib.contains_key(s.subrange(p + 2, at_cite_end(s, p))),
    ensures
        cited_keys(s, bib, root).contains(s.subrange(p + 2, at_cite_end(s, p))),
{
    assert(s.subrange(0, s.len() as int) =~= s);
    assert(after_cites(s, bib, root) == s);
    at_citation_is_recorded(s, bib, root, p);
}

/// Only keys that the bibliography knows are recorded as cited.
pub proof fn cited_keys_are_known(
    s: Seq<char>,
    bib: Map<Seq<char>, BibItemView>,
    root: Seq<char>,
    key: Seq<char>,
)
    requires
        cited_keys(s, bib, root).contains(key),
    ensures
        bib.contains_key(key),
{
}

/// A draft chapter and a chapter at the root of the book link to the
/// bibliography page without going up; each directory that a path enters
/// adds one `../`, and `..` takes one away.
pub proof fn path_to_root_depths(name: Seq<char>, dir: Seq<char>, rest: Seq<char>)
    requires
        forall|j: int| 0 <= j < name.len() ==> name[j] != '/',
        forall|j: int| 0 <= j < dir.len() ==> dir[j] != '/',
        dir.len() > 0,
        dir != "."@,
        dir != ".."@,
    ensures
        spec_path_to_root(None) == Seq::<char>::empty(),
        spec_path_to_root(Some(name)) == Seq::<char>::empty(),
        dir_depth(dir + "/"@ + rest, 0, 0) == dir_depth(rest, 0, 1),
        dir_depth(".."@ + "/"@ + rest, 0, 0) == dir_depth(rest, 0, 0),
{
    reveal_strlit("/");
    reveal_strlit("..");
    lemma_no_slash_run(name, 0);
    lemma_name_then_rest(dir, rest, 0);
    lemma_name_then_rest(".."@, rest, 0);
    assert(ups(0) == Seq::<char>::empty());
}

proof fn lemma_no_slash_run(p: Seq<char>, i: int)
    requires
        0 <= i <= p.len(),
        forall|j: int| 0 <= j < p.len() ==> p[j] != '/',
    ensures
        run_end(p, i, CharClass::NotSlash) == p.len(),
        dir_depth(p, i, 0) == 0,
    decreases p.len() - i,
{
    if i < p.len() {
        lemma_no_slash_run(p, i + 1);
    }
}

proof fn lemma_name_then_rest(dir: Seq<char>, rest: Seq<char>, d: nat)
    requires
        forall|j: int| 0 <= j < dir.len() ==> dir[j] != '/',
    ensures
        dir_depth(dir + "/"@ + rest, 0, d) == dir_depth(rest, 0, depth_step(d, dir)),
{
    reveal_strlit("/");
    let p = dir + "/"@ + rest;
    lemma_run_prefix(dir, rest, 0);
    assert(p.subrange(0, dir.len() as int) =~= dir);
    lemma_depth_suffix(p, rest, dir.len() + 1int, 0, depth_step(d, dir));
}

proof fn lemma_run_prefix(dir: Seq<char>, rest: Seq<char>, i: int)
    requires
        0 <= i <= dir.len(),
        forall|j: int| 0 <= j < dir.len() ==> dir[j] != '/',
    ensures
        run_end(dir + "/"@ + rest, i, CharClass::NotSlash) == dir.len(),
    decreases dir.len() - i,
{
    reveal_strlit("/");
    if i < dir.len() {
        lemma_run_prefix(dir, rest, i + 1);
    } else {
        assert((dir + "/"@ + rest)[dir.len() as int] == '/');
    }
}

proof fn lemma_depth_suffix(p: Seq<char>, rest: Seq<char>, off: int, i: int, d: nat)
    requires
        0 <= off,
        0 <= i,
        off + rest.len() == p.len(),
        forall|j: int| 0 <= j < rest.len() ==> p[off + j] == rest[j],
    ensures
        dir_depth(p, off + i, d) == dir_depth(rest, i, d),
    decreases rest.len() - i,
{
    lemma_run_suffix(p, rest, off, i);
    let j = run_end(rest, i, CharClass::NotSlash);
    if j < rest.len() {
        lemma_run_end(rest, i, CharClass::NotSlash);
        assert(p.subrange(off + i, off + j) =~= rest.subrange(i, j));
        lemma_depth_suffix(p, rest, off, j + 1, depth_step(d, rest.subrange(i, j)));
    }
}

proof fn lemma_run_suffix(p: Seq<char>, rest: Seq<char>, off: int, i: int)
    requires
        0 <= off,
        0 <= i,
        off + rest.len() == p.len(),
        forall|j: int| 0 <= j < rest.len() ==> p[off + j] == rest[j],
    ensures
        run_end(p, off + i, CharClass::NotSlash) == off + run_end(rest, i, CharClass::NotSlash),
    decreases rest.len() - i,
{
    if i < rest.len() {
        assert(p[off + i] == rest[i]);
        lemma_run_suffix(p, rest, off, i + 1);
    }
}

} // verus!
