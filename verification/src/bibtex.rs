//! A reader for BibTeX text.
//!
//! The text is a sequence of entries; anything between entries that is not
//! an `@` is passed over. An entry reads
//!
//! ```text
//! @type{key, name = {value}, name = value, ...}
//! ```
//!
//! with white space allowed around every part. The type is made of letters,
//! the key of anything but white space, `,`, `{` and `}`, and a field name
//! of letters, digits and `_ - : . +`; types and field names are read in
//! lower case. A value is either a braced group, whose inner text (nested
//! braces included, outer braces excluded) is the value, or a run of
//! characters other than `,`, `{` and `}`, trimmed of white space. A comma
//! may follow the last field. Entries of type `comment`, `string` and
//! `preamble` are read as one braced group and give no entry. An `@` that
//! does not start a well-formed entry makes the whole text unreadable.
use vstd::prelude::*;
use crate::bibitem::Tags;
use crate::strmap::StrMap;
use crate::text::{
    is_space_char, lemma_run_end, push_char, run_end, scan_run, string_of_range, trim,
    trim_bounds, CharClass,
};

verus! {

/// `c` in lower case, where it is an ASCII letter.
pub open spec fn to_lower(c: char) -> char {
    if 'A' <= c && c <= 'Z' {
        ((c as u32) + 32) as char
    } else {
        c
    }
}

pub open spec fn lower(t: Seq<char>) -> Seq<char> {
    t.map_values(|c: char| to_lower(c))
}

fn lower_char(c: char) -> (r: char)
    ensures
        r == to_lower(c),
{
    if 'A' <= c && c <= 'Z' {
        let b: u8 = c as u8;
        let l: u8 = b + 32;
        l as char
    } else {
        c
    }
}

/// A new string holding `s[lo..hi]` in lower case.
fn lower_string(s: &Vec<char>, lo: usize, hi: usize) -> (r: String)
    requires
        lo <= hi <= s@.len(),
    ensures
        r@ == lower(s@.subrange(lo as int, hi as int)),
{
    let mut out = String::new();
    let mut i = lo;
    while i < hi
        invariant
            lo <= i <= hi <= s@.len(),
            out@ == lower(s@.subrange(lo as int, i as int)),
        decreases hi - i,
    {
        let c = lower_char(s[i]);
        push_char(&mut out, c);
        assert(lower(s@.subrange(lo as int, i + 1)) =~= lower(
            s@.subrange(lo as int, i as int),
        ).push(c));
        i = i + 1;
    }
    out
}

/// Where the braced group whose opening brace came before `i` closes, with
/// `depth` groups open: the position of its closing brace.
pub open spec fn brace_close(s: Seq<char>, i: int, depth: nat) -> Option<int>
    decreases s.len() - i,
{
    if i < 0 || i >= s.len() {
        None
    } else if s[i] == '{' {
        brace_close(s, i + 1, depth + 1)
    } else if s[i] == '}' {
        if depth <= 1 {
            Some(i)
        } else {
            brace_close(s, i + 1, (depth - 1) as nat)
        }
    } else {
        brace_close(s, i + 1, depth)
    }
}

pub proof fn lemma_brace_close(s: Seq<char>, i: int, depth: nat)
    requires
        brace_close(s, i, depth) is Some,
    ensures
        i <= brace_close(s, i, depth)->0 < s.len(),
        s[brace_close(s, i, depth)->0] == '}',
    decreases s.len() - i,
{
    if i < 0 || i >= s.len() {
    } else if s[i] == '{' {
        lemma_brace_close(s, i + 1, depth + 1);
    } else if s[i] == '}' {
        if depth > 1 {
            lemma_brace_close(s, i + 1, (depth - 1) as nat);
        }
    } else {
        lemma_brace_close(s, i + 1, depth);
    }
}

fn find_brace_close(s: &Vec<char>, i: usize) -> (r: Option<usize>)
    requires
        0 < i <= s@.len(),
    ensures
        r matches Some(e) ==> brace_close(s@, i as int, 1) == Some(e as int),
        r is None ==> brace_close(s@, i as int, 1) is None,
{
    let mut j = i;
    let mut depth: usize = 1;
    while j < s.len()
        invariant
            0 < i <= j <= s@.len(),
            1 <= depth <= j - i + 1,
            brace_close(s@, i as int, 1) == brace_close(s@, j as int, depth as nat),
        decreases s@.len() - j,
    {
        if s[j] == '{' {
            depth = depth + 1;
        } else if s[j] == '}' {
            if depth <= 1 {
                return Some(j);
            }
            depth = depth - 1;
        }
        j = j + 1;
    }
    None
}

/// A field `name = value` starting at `j`: its name (lower case), its
/// value, and where it ends.
pub open spec fn field_at(s: Seq<char>, j: int) -> Option<(Seq<char>, Seq<char>, int)> {
    let n1 = run_end(s, j, CharClass::FieldName);
    let e = run_end(s, n1, CharClass::Space);
    let v0 = run_end(s, e + 1, CharClass::Space);
    if n1 == j || e >= s.len() || s[e] != '=' || v0 >= s.len() {
        None
    } else if s[v0] == '{' {
        match brace_close(s, v0 + 1, 1) {
            Some(ve) => Some((lower(s.subrange(j, n1)), s.subrange(v0 + 1, ve), ve + 1)),
            None => None,
        }
    } else {
        let v1 = run_end(s, v0, CharClass::Bare);
        if v1 == v0 {
            None
        } else {
            Some((lower(s.subrange(j, n1)), trim(s.subrange(v0, v1)), v1))
        }
    }
}

pub proof fn lemma_field_at(s: Seq<char>, j: int)
    requires
        0 <= j,
        field_at(s, j) is Some,
    ensures
        j < field_at(s, j).unwrap().2 <= s.len(),
{
    let n1 = run_end(s, j, CharClass::FieldName);
    lemma_run_end(s, j, CharClass::FieldName);
    lemma_run_end(s, n1, CharClass::Space);
    let e = run_end(s, n1, CharClass::Space);
    lemma_run_end(s, e + 1, CharClass::Space);
    let v0 = run_end(s, e + 1, CharClass::Space);
    if s[v0] == '{' {
        lemma_brace_close(s, v0 + 1, 1);
    } else {
        lemma_run_end(s, v0, CharClass::Bare);
    }
}

/// The fields from position `i` up to the brace that closes the entry: the
/// fields in order, and the position of that brace.
pub open spec fn fields_from(s: Seq<char>, i: int) -> Option<
    (Seq<(Seq<char>, Seq<char>)>, int),
>
    decreases s.len() - i,
{
    let j = run_end(s, i, CharClass::Space);
    if i < 0 || j >= s.len() {
        None
    } else if s[j] == '}' {
        Some((Seq::empty(), j))
    } else {
        match field_at(s, j) {
            None => None,
            Some((name, value, e)) => {
                let k = run_end(s, e, CharClass::Space);
                if k >= s.len() {
                    None
                } else if s[k] == ',' {
                    proof {
                        lemma_run_end(s, i, CharClass::Space);
                        lemma_field_at(s, j);
                        lemma_run_end(s, e, CharClass::Space);
                    }
                    match fields_from(s, k + 1) {
                        Some((fs, c)) => Some((seq![(name, value)] + fs, c)),
                        None => None,
                    }
                } else if s[k] == '}' {
                    Some((seq![(name, value)], k))
                } else {
                    None
                }
            },
        }
    }
}

/// The map of a sequence of fields; a later field replaces an earlier one of
/// the same name.
pub open spec fn fields_map(fs: Seq<(Seq<char>, Seq<char>)>) -> Map<Seq<char>, Seq<char>>
    decreases fs.len(),
{
    if fs.len() == 0 {
        Map::empty()
    } else {
        fields_map(fs.drop_last()).insert(fs.last().0, fs.last().1)
    }
}

/// The value of one entry.
pub struct EntryView {
    pub entry_type: Seq<char>,
    pub key: Seq<char>,
    pub fields: Seq<(Seq<char>, Seq<char>)>,
}

/// Types of entries that give no bibliography entry.
pub open spec fn is_skipped_type(t: Seq<char>) -> bool {
    t == "comment"@ || t == "string"@ || t == "preamble"@
}

/// The entry whose `@` stands at `i`: the entry (none for the skipped types)
/// and where it ends.
pub open spec fn entry_at(s: Seq<char>, i: int) -> Option<(Option<EntryView>, int)> {
    let a = run_end(s, i + 1, CharClass::Space);
    let b = run_end(s, a, CharClass::Alpha);
    let c = run_end(s, b, CharClass::Space);
    let typ = lower(s.subrange(a, b));
    let k0 = run_end(s, c + 1, CharClass::Space);
    let k1 = run_end(s, k0, CharClass::EntryKey);
    let k2 = run_end(s, k1, CharClass::Space);
    if b == a || c >= s.len() || s[c] != '{' {
        None
    } else if is_skipped_type(typ) {
        match brace_close(s, c + 1, 1) {
            Some(e) => Some((None, e + 1)),
            None => None,
        }
    } else if k1 == k0 || k2 >= s.len() {
        None
    } else if s[k2] == '}' {
        Some(
            (
                Some(EntryView { entry_type: typ, key: s.subrange(k0, k1), fields: Seq::empty() }),
                k2 + 1,
            ),
        )
    } else if s[k2] == ',' {
        match fields_from(s, k2 + 1) {
            Some((fs, close)) => Some(
                (Some(EntryView { entry_type: typ, key: s.subrange(k0, k1), fields: fs }), close + 1),
            ),
            None => None,
        }
    } else {
        None
    }
}

pub proof fn lemma_fields_from(s: Seq<char>, i: int)
    requires
        0 <= i,
        fields_from(s, i) is Some,
    ensures
        i <= fields_from(s, i).unwrap().1 < s.len(),
    decreases s.len() - i,
{
    lemma_run_end(s, i, CharClass::Space);
    let j = run_end(s, i, CharClass::Space);
    if s[j] != '}' {
        lemma_field_at(s, j);
        let e = field_at(s, j).unwrap().2;
        lemma_run_end(s, e, CharClass::Space);
        let k = run_end(s, e, CharClass::Space);
        if s[k] == ',' {
            lemma_fields_from(s, k + 1);
        }
    }
}

pub proof fn lemma_entry_at(s: Seq<char>, i: int)
    requires
        0 <= i,
        entry_at(s, i) is Some,
    ensures
        i < entry_at(s, i).unwrap().1 <= s.len(),
{
    lemma_run_end(s, i + 1, CharClass::Space);
    let a = run_end(s, i + 1, CharClass::Space);
    lemma_run_end(s, a, CharClass::Alpha);
    let b = run_end(s, a, CharClass::Alpha);
    lemma_run_end(s, b, CharClass::Space);
    let c = run_end(s, b, CharClass::Space);
    lemma_run_end(s, c + 1, CharClass::Space);
    let k0 = run_end(s, c + 1, CharClass::Space);
    lemma_run_end(s, k0, CharClass::EntryKey);
    let k1 = run_end(s, k0, CharClass::EntryKey);
    lemma_run_end(s, k1, CharClass::Space);
    if is_skipped_type(lower(s.subrange(a, b))) {
        lemma_brace_close(s, c + 1, 1);
    } else {
        let k2 = run_end(s, k1, CharClass::Space);
        if s[k2] == ',' {
            lemma_fields_from(s, k2 + 1);
        }
    }
}

/// The entries of `s` from position `i` on, or the position of the `@` of
/// the first entry that is not well formed.
pub open spec fn entries_from(s: Seq<char>, i: int) -> Result<Seq<EntryView>, int>
    decreases s.len() - i,
{
    if i < 0 || i >= s.len() {
        Ok(Seq::empty())
    } else if s[i] != '@' {
        entries_from(s, i + 1)
    } else {
        match entry_at(s, i) {
            None => Err(i),
            Some((e, end)) => {
                proof {
                    lemma_entry_at(s, i);
                }
                match entries_from(s, end) {
                    Err(p) => Err(p),
                    Ok(rest) => Ok(
                        match e {
                            Some(x) => seq![x] + rest,
                            None => rest,
                        },
                    ),
                }
            },
        }
    }
}

/// An entry as read: its type and key (the type in lower case) and its
/// fields.
pub struct RawEntry {
    pub entry_type: String,
    pub key: String,
    pub tags: Tags,
}

/// The entry `r` holds what `e` says.
pub open spec fn holds_entry(r: RawEntry, e: EntryView) -> bool {
    &&& r.entry_type@ == e.entry_type
    &&& r.key@ == e.key
    &&& r.tags.wf()
    &&& r.tags@ == fields_map(e.fields)
}

/// Reads the field at `j`: name, value and end.
fn read_field(s: &Vec<char>, j: usize) -> (r: Option<(String, String, usize)>)
    requires
        j <= s@.len(),
    ensures
        r is Some <==> field_at(s@, j as int) is Some,
        r matches Some((n, v, e)) ==> (n@, v@, e as int) == field_at(s@, j as int)->0,
{
    let n = s.len();
    let n1 = scan_run(s, j, CharClass::FieldName);
    let e = scan_run(s, n1, CharClass::Space);
    if n1 == j || e >= n || s[e] != '=' {
        return None;
    }
    let v0 = scan_run(s, e + 1, CharClass::Space);
    if v0 >= n {
        return None;
    }
    if s[v0] == '{' {
        match find_brace_close(s, v0 + 1) {
            Some(ve) => {
                proof {
                    lemma_brace_close(s@, v0 + 1, 1);
                }
                let name = lower_string(s, j, n1);
                let value = string_of_range(s, v0 + 1, ve);
                Some((name, value, ve + 1))
            },
            None => None,
        }
    } else {
        let v1 = scan_run(s, v0, CharClass::Bare);
        if v1 == v0 {
            return None;
        }
        let name = lower_string(s, j, n1);
        let (a, b) = trim_bounds(s, v0, v1);
        let value = string_of_range(s, a, b);
        Some((name, value, v1))
    }
}

/// Reads the fields from `i` to the closing brace of the entry.
fn read_fields(s: &Vec<char>, i: usize) -> (r: Option<(Tags, usize)>)
    requires
        i <= s@.len(),
    ensures
        r is Some <==> fields_from(s@, i as int) is Some,
        r matches Some((t, c)) ==> {
            &&& t.wf()
            &&& c as int == fields_from(s@, i as int).unwrap().1
            &&& t@ == fields_map(fields_from(s@, i as int).unwrap().0)
        },
{
    let n = s.len();
    let mut tags: Tags = StrMap::new();
    let ghost mut acc: Seq<(Seq<char>, Seq<char>)> = Seq::empty();
    let mut p = i;
    loop
        invariant
            i <= p <= n,
            n == s@.len(),
            tags.wf(),
            tags@ == fields_map(acc),
            fields_from(s@, i as int) == match fields_from(s@, p as int) {
                Some((fs, c)) => Some((acc + fs, c)),
                None => None,
            },
        decreases n - p,
    {
        let j = scan_run(s, p, CharClass::Space);
        if j >= n {
            return None;
        }
        if s[j] == '}' {
            proof {
                assert(acc + Seq::<(Seq<char>, Seq<char>)>::empty() =~= acc);
            }
            return Some((tags, j));
        }
        match read_field(s, j) {
            None => {
                return None;
            },
            Some((name, value, e)) => {
                proof {
                    lemma_field_at(s@, j as int);
                }
                let k = scan_run(s, e, CharClass::Space);
                if k >= n {
                    return None;
                }
                let ghost f = (name@, value@);
                let ghost old_acc = acc;
                tags.insert(name, value);
                proof {
                    acc = acc.push(f);
                    assert(acc.drop_last() =~= old_acc);
                }
                if s[k] == ',' {
                    proof {
                        match fields_from(s@, k + 1) {
                            Some((fs, c)) => {
                                assert(old_acc + (seq![f] + fs) =~= acc + fs);
                            },
                            None => {},
                        }
                    }
                    p = k + 1;
                } else if s[k] == '}' {
                    proof {
                        assert(old_acc + seq![f] =~= acc);
                    }
                    return Some((tags, k));
                } else {
                    return None;
                }
            },
        }
    }
}

/// Reads the entry whose `@` stands at `i`.
fn read_entry(s: &Vec<char>, i: usize) -> (r: Option<(Option<RawEntry>, usize)>)
    requires
        i < s@.len(),
    ensures
        r is Some <==> entry_at(s@, i as int) is Some,
        r matches Some((oe, end)) ==> {
            &&& end as int == entry_at(s@, i as int).unwrap().1
            &&& match (oe, entry_at(s@, i as int).unwrap().0) {
                (None, None) => true,
                (Some(x), Some(y)) => holds_entry(x, y),
                _ => false,
            }
        },
{
    let n = s.len();
    let a = scan_run(s, i + 1, CharClass::Space);
    let b = scan_run(s, a, CharClass::Alpha);
    let c = scan_run(s, b, CharClass::Space);
    if b == a || c >= n || s[c] != '{' {
        return None;
    }
    let typ = lower_string(s, a, b);
    let skipped = typ == "comment".to_owned() || typ == "string".to_owned() || typ
        == "preamble".to_owned();
    if skipped {
        match find_brace_close(s, c + 1) {
            Some(e) => {
                proof {
                    lemma_brace_close(s@, c + 1, 1);
                }
                return Some((None, e + 1));
            },
            None => {
                return None;
            },
        }
    }
    let k0 = scan_run(s, c + 1, CharClass::Space);
    let k1 = scan_run(s, k0, CharClass::EntryKey);
    let k2 = scan_run(s, k1, CharClass::Space);
    if k1 == k0 || k2 >= n {
        return None;
    }
    let key = string_of_range(s, k0, k1);
    if s[k2] == '}' {
        let tags: Tags = StrMap::new();
        proof {
            assert(fields_map(Seq::<(Seq<char>, Seq<char>)>::empty()) =~= Map::<
                Seq<char>,
                Seq<char>,
            >::empty());
        }
        Some((Some(RawEntry { entry_type: typ, key, tags }), k2 + 1))
    } else if s[k2] == ',' {
        match read_fields(s, k2 + 1) {
            Some((tags, close)) => {
                proof {
                    lemma_fields_from(s@, k2 + 1);
                }
                Some((Some(RawEntry { entry_type: typ, key, tags }), close + 1))
            },
            None => None,
        }
    } else {
        None
    }
}

/// Reads all entries of `s`, or gives the position of the `@` of the first
/// entry that is not well formed.
pub fn read_entries(s: &Vec<char>) -> (r: Result<Vec<RawEntry>, usize>)
    ensures
        r is Ok <==> entries_from(s@, 0) is Ok,
        r matches Err(p) ==> entries_from(s@, 0) == Err::<Seq<EntryView>, int>(p as int),
        r matches Ok(v) ==> {
            &&& v@.len() == entries_from(s@, 0)->Ok_0.len()
            &&& forall|k: int|
                0 <= k < v@.len() ==> holds_entry(
                    #[trigger] v@[k],
                    entries_from(s@, 0)->Ok_0[k],
                )
        },
{
    let n = s.len();
    let mut out: Vec<RawEntry> = Vec::new();
    let ghost mut acc: Seq<EntryView> = Seq::empty();
    let mut i: usize = 0;
    while i < n
        invariant
            i <= n,
            n == s@.len(),
            out@.len() == acc.len(),
            forall|k: int| 0 <= k < out@.len() ==> holds_entry(#[trigger] out@[k], acc[k]),
            entries_from(s@, 0) == match entries_from(s@, i as int) {
                Ok(rest) => Ok(acc + rest),
                Err(p) => Err(p),
            },
        decreases n - i,
    {
        if s[i] != '@' {
            i = i + 1;
        } else {
            match read_entry(s, i) {
                None => {
                    return Err(i);
                },
                Some((oe, end)) => {
                    proof {
                        lemma_entry_at(s@, i as int);
                    }
                    match oe {
                        Some(x) => {
                            let ghost y = entry_at(s@, i as int).unwrap().0->Some_0;
                            let ghost old_acc = acc;
                            out.push(x);
                            proof {
                                acc = acc.push(y);
                                match entries_from(s@, end as int) {
                                    Ok(rest) => {
                                        assert(old_acc + (seq![y] + rest) =~= acc + rest);
                                    },
                                    Err(_) => {},
                                }
                            }
                        },
                        None => {},
                    }
                    i = end;
                },
            }
        }
    }
    proof {
        assert(acc + Seq::<EntryView>::empty() =~= acc);
    }
    Ok(out)
}

} // verus!
