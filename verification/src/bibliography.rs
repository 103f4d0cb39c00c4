//! The bibliography: the items read from BibTeX text, by citation key.
use vstd::prelude::*;
use crate::bibitem::{bib_item_from, item_of, BibItem, BibItemView};
use crate::bibtex::{
    entries_from, entry_at, fields_from, fields_map, holds_entry, is_skipped_type, lower,
    read_entries, EntryView, RawEntry,
};
use crate::strmap::StrMap;
use crate::text::{chars_of, in_class, lemma_run_exact, range_equals, CharClass};

verus! {

/// The items of a bibliography, each under its citation key, in the order in
/// which their keys first appeared.
pub struct Bibliography {
    items: StrMap<BibItem>,
}

impl Bibliography {
    /// Each item is kept under its own citation key.
    pub closed spec fn wf(&self) -> bool {
        &&& self.items.wf()
        &&& forall|k: Seq<char>| #[trigger]
            self.items@.contains_key(k) ==> self.items@[k].citation_key == k
    }

    /// The citation keys in order.
    pub closed spec fn keys_seq(&self) -> Seq<Seq<char>> {
        self.items.keys_seq()
    }

    /// The items in order.
    pub closed spec fn items_seq(&self) -> Seq<BibItemView> {
        self.items.values_seq()
    }

    /// The items in order are the items of the map, each under its key, and
    /// no key occurs twice.
    pub proof fn lemma_items(&self)
        requires
            self.wf(),
        ensures
            self.items_seq().len() == self.keys_seq().len() == self@.len(),
            self.keys_seq().no_duplicates(),
            forall|i: int|
                0 <= i < self.items_seq().len() ==> {
                    &&& (#[trigger] self.items_seq()[i]).citation_key == self.keys_seq()[i]
                    &&& self@.contains_key(self.keys_seq()[i])
                    &&& self@[self.keys_seq()[i]] == self.items_seq()[i]
                },
            forall|k: Seq<char>| #[trigger] self@.contains_key(k) <==> self.keys_seq().contains(k),
    {
        self.items.lemma_view();
        assert forall|i: int| 0 <= i < self.items_seq().len() implies {
            &&& (#[trigger] self.items_seq()[i]).citation_key == self.keys_seq()[i]
            &&& self@.contains_key(self.keys_seq()[i])
            &&& self@[self.keys_seq()[i]] == self.items_seq()[i]
        } by {
            assert(self.items@.contains_key(self.items.keys_seq()[i]));
        }
    }

    /// An empty bibliography.
    pub fn new() -> (r: Self)
        ensures
            r.wf(),
            r@ == Map::<Seq<char>, BibItemView>::empty(),
            r.keys_seq() == Seq::<Seq<char>>::empty(),
    {
        Bibliography { items: StrMap::new() }
    }

    /// The number of items.
    pub fn len(&self) -> (r: usize)
        requires
            self.wf(),
        ensures
            r == self@.len(),
    {
        self.items.len()
    }

    /// The item cited as `key`, if there is one.
    pub fn get(&self, key: &str) -> (r: Option<&BibItem>)
        requires
            self.wf(),
        ensures
            r is Some <==> self@.contains_key(key@),
            r matches Some(v) ==> v@ == self@[key@],
    {
        self.items.get(key)
    }

    /// Whether some item is cited as `key`.
    pub fn contains_key(&self, key: &str) -> (r: bool)
        requires
            self.wf(),
        ensures
            r == self@.contains_key(key@),
    {
        self.items.contains_key(key)
    }

    /// The item at position `i`.
    pub fn item_at(&self, i: usize) -> (r: &BibItem)
        requires
            i < self.items_seq().len(),
        ensures
            r@ == self.items_seq()[i as int],
    {
        proof {
            self.items.lemma_view_lengths();
        }
        self.items.value_at(i)
    }

    /// Adds `item` under its citation key, replacing an item with the same
    /// key in its place.
    pub fn insert(&mut self, item: BibItem)
        requires
            old(self).wf(),
        ensures
            final(self).wf(),
            final(self)@ == old(self)@.insert(item.citation_key@, item@),
            final(self).keys_seq() == if old(self).keys_seq().contains(item.citation_key@) {
                old(self).keys_seq()
            } else {
                old(self).keys_seq().push(item.citation_key@)
            },
    {
        let key = item.citation_key.clone();
        let ghost it = item@;
        self.items.insert(key, item);
        proof {
            assert forall|k: Seq<char>| #[trigger]
                self.items@.contains_key(k) implies self.items@[k].citation_key == k by {
                if k != it.citation_key {
                    assert(old(self).items@.contains_key(k));
                }
            }
        }
    }
}

impl View for Bibliography {
    type V = Map<Seq<char>, BibItemView>;

    open spec fn view(&self) -> Map<Seq<char>, BibItemView> {
        self.map_view()
    }
}

impl Bibliography {
    pub closed spec fn map_view(&self) -> Map<Seq<char>, BibItemView> {
        self.items@
    }
}

/// `s` without its double quotes.
pub open spec fn without_quotes(s: Seq<char>) -> Seq<char>
    decreases s.len(),
{
    if s.len() == 0 {
        s
    } else if s.last() == '"' {
        without_quotes(s.drop_last())
    } else {
        without_quotes(s.drop_last()).push(s.last())
    }
}

/// The items of a sequence of entries, by key; a later entry replaces an
/// earlier one with the same key.
pub open spec fn items_map(es: Seq<EntryView>) -> Map<Seq<char>, BibItemView>
    decreases es.len(),
{
    if es.len() == 0 {
        Map::empty()
    } else {
        items_map(es.drop_last()).insert(
            es.last().key,
            item_of(es.last().key, fields_map(es.last().fields)),
        )
    }
}

/// The keys of a sequence of entries in the order of their first appearance.
pub open spec fn key_order(es: Seq<EntryView>) -> Seq<Seq<char>>
    decreases es.len(),
{
    if es.len() == 0 {
        Seq::empty()
    } else if key_order(es.drop_last()).contains(es.last().key) {
        key_order(es.drop_last())
    } else {
        key_order(es.drop_last()).push(es.last().key)
    }
}

/// The bibliography built from a sequence of entries holds exactly the keys
/// of the entries.
pub proof fn items_hold_the_entry_keys(es: Seq<EntryView>, k: Seq<char>)
    ensures
        items_map(es).contains_key(k) <==> exists|j: int|
            0 <= j < es.len() && (#[trigger] es[j]).key == k,
    decreases es.len(),
{
    if es.len() > 0 {
        let init = es.drop_last();
        items_hold_the_entry_keys(init, k);
        if exists|j: int| 0 <= j < init.len() && (#[trigger] init[j]).key == k {
            let j = choose|j: int| 0 <= j < init.len() && (#[trigger] init[j]).key == k;
            assert(es[j] == init[j]);
        }
        if exists|j: int| 0 <= j < es.len() && (#[trigger] es[j]).key == k {
            let j = choose|j: int| 0 <= j < es.len() && (#[trigger] es[j]).key == k;
            if j < init.len() {
                assert(init[j] == es[j]);
            }
        }
        if es.last().key == k {
            assert(es[es.len() - 1].key == k);
        }
    }
}

/// Under each key, the bibliography built from a sequence of entries holds
/// the item made from the last entry with that key.
pub proof fn last_entry_of_a_key_wins(es: Seq<EntryView>, j: int)
    requires
        0 <= j < es.len(),
        forall|l: int| j < l < es.len() ==> (#[trigger] es[l]).key != es[j].key,
    ensures
        items_map(es)[es[j].key] == item_of(es[j].key, fields_map(es[j].fields)),
    decreases es.len(),
{
    if j < es.len() - 1 {
        let init = es.drop_last();
        assert(es[es.len() - 1].key != es[j].key);
        assert forall|l: int| j < l < init.len() implies (#[trigger] init[l]).key != init[j].key by {
            assert(init[l] == es[l]);
        }
        last_entry_of_a_key_wins(init, j);
        assert(init[j] == es[j]);
    }
}

/// An entry `@type{key}` or `@type{key,}` read alone gives one entry whose
/// key is the key exactly as written, and the bibliography built from it
/// holds one item under that key, whose citation key is that key.
pub proof fn entry_keeps_its_key_as_written(typ: Seq<char>, key: Seq<char>, with_comma: bool)
    requires
        typ.len() > 0,
        forall|j: int| 0 <= j < typ.len() ==> in_class(CharClass::Alpha, #[trigger] typ[j]),
        !is_skipped_type(lower(typ)),
        key.len() > 0,
        forall|j: int| 0 <= j < key.len() ==> in_class(CharClass::EntryKey, #[trigger] key[j]),
    ensures
        ({
            let s = "@"@ + typ + "{"@ + key + if with_comma {
                ",}"@
            } else {
                "}"@
            };
            &&& entries_from(s, 0) == Ok::<Seq<EntryView>, int>(
                seq![EntryView { entry_type: lower(typ), key: key, fields: Seq::empty() }],
            )
            &&& items_map(entries_from(s, 0)->Ok_0).contains_key(key)
            &&& items_map(entries_from(s, 0)->Ok_0)[key].citation_key == key
            &&& items_map(entries_from(s, 0)->Ok_0).len() == 1
        }),
{
    reveal_strlit("@");
    reveal_strlit("{");
    reveal_strlit(",}");
    reveal_strlit("}");
    let tail = if with_comma {
        ",}"@
    } else {
        "}"@
    };
    let s = "@"@ + typ + "{"@ + key + tail;
    let b: int = 1 + typ.len() as int;
    let k0: int = b + 1;
    let k1: int = k0 + key.len();
    assert(s[0] == '@');
    assert(s[1] == typ[0]);
    lemma_run_exact(s, 1, 1, CharClass::Space);
    assert forall|m: int| 1 <= m < b implies in_class(CharClass::Alpha, #[trigger] s[m]) by {
        assert(s[m] == typ[m - 1]);
    }
    assert(s[b] == '{');
    lemma_run_exact(s, 1, b, CharClass::Alpha);
    lemma_run_exact(s, b, b, CharClass::Space);
    assert(s.subrange(1, b) =~= typ);
    assert(s[k0] == key[0]);
    lemma_run_exact(s, k0, k0, CharClass::Space);
    assert forall|m: int| k0 <= m < k1 implies in_class(CharClass::EntryKey, #[trigger] s[m]) by {
        assert(s[m] == key[m - k0]);
    }
    assert(s[k1] == tail[0]);
    lemma_run_exact(s, k0, k1, CharClass::EntryKey);
    lemma_run_exact(s, k1, k1, CharClass::Space);
    assert(s.subrange(k0, k1) =~= key);
    let e = EntryView { entry_type: lower(typ), key: key, fields: Seq::empty() };
    if with_comma {
        assert(s[k1 + 1] == '}');
        lemma_run_exact(s, k1 + 1, k1 + 1, CharClass::Space);
        assert(fields_from(s, k1 + 1) == Some((Seq::<(Seq<char>, Seq<char>)>::empty(), k1 + 1)));
        assert(entry_at(s, 0) == Some((Some(e), k1 + 2)));
        assert(s.len() == k1 + 2);
    } else {
        assert(entry_at(s, 0) == Some((Some(e), k1 + 1)));
        assert(s.len() == k1 + 1);
    }
    assert(entries_from(s, s.len() as int) == Ok::<Seq<EntryView>, int>(Seq::empty()));
    assert(seq![e] + Seq::<EntryView>::empty() =~= seq![e]);
    let es = seq![e];
    assert(es.drop_last() =~= Seq::<EntryView>::empty());
    assert(es.last() == e);
    assert(items_map(es.drop_last()) == Map::<Seq<char>, BibItemView>::empty());
    assert(items_map(es) == Map::<Seq<char>, BibItemView>::empty().insert(
        key,
        item_of(key, fields_map(e.fields)),
    ));
    assert(items_map(es).dom() =~= set![key]);
}

/// The path names a file whose extension is `bib`: its file name ends in
/// `.bib` after at least one other character.
pub open spec fn is_bib_path(p: Seq<char>) -> bool {
    &&& p.len() >= 5
    &&& p.subrange(p.len() - 4, p.len() as int) == ".bib"@
    &&& p[p.len() - 5] != '/'
}

/// Whether the bibliography file at `path` is a BibTeX file, by its
/// extension.
pub fn is_bib_file(path: &str) -> (r: bool)
    ensures
        r == is_bib_path(path@),
{
    let p = chars_of(path);
    let n = p.len();
    n >= 5 && range_equals(&p, n - 4, n, ".bib") && p[n - 5] != '/'
}

/// The BibTeX text could not be read: the position of the `@` of the first
/// entry that is not well formed, counted in characters of the text with its
/// double quotes removed.
#[derive(Debug)]
pub struct BibParseError {
    pub position: usize,
}

fn chars_without_quotes(raw: &str) -> (v: Vec<char>)
    ensures
        v@ == without_quotes(raw@),
{
    let all = chars_of(raw);
    let mut v: Vec<char> = Vec::new();
    let mut i: usize = 0;
    while i < all.len()
        invariant
            all@ == raw@,
            i <= all@.len(),
            v@ == without_quotes(all@.take(i as int)),
        decreases all@.len() - i,
    {
        proof {
            assert(all@.take(i + 1).drop_last() =~= all@.take(i as int));
        }
        if all[i] != '"' {
            v.push(all[i]);
        }
        i = i + 1;
    }
    proof {
        assert(all@.take(all@.len() as int) =~= raw@);
    }
    v
}

/// Builds the bibliography of BibTeX text. Double quotes are removed first
/// (they may stand around values, as in `{"Title"}`); then the entries are
/// read as the `bibtex` module describes, and each becomes an item under
/// its key.
pub fn build_bibliography(raw_content: String) -> (r: Result<Bibliography, BibParseError>)
    ensures
        match entries_from(without_quotes(raw_content@), 0) {
            Ok(es) => r matches Ok(b) && b.wf() && b@ == items_map(es) && b.keys_seq()
                == key_order(es),
            Err(p) => r matches Err(e) && e.position as int == p,
        },
{
    let s = chars_without_quotes(raw_content.as_str());
    match read_entries(&s) {
        Err(p) => Err(BibParseError { position: p }),
        Ok(entries) => {
            let ghost es = entries_from(s@, 0)->Ok_0;
            let mut bib = Bibliography::new();
            let mut k: usize = 0;
            while k < entries.len()
                invariant
                    entries@.len() == es.len(),
                    forall|j: int|
                        0 <= j < entries@.len() ==> holds_entry(#[trigger] entries@[j], es[j]),
                    k <= es.len(),
                    bib.wf(),
                    bib@ == items_map(es.take(k as int)),
                    bib.keys_seq() == key_order(es.take(k as int)),
                decreases es.len() - k,
            {
                let e: &RawEntry = &entries[k];
                assert(holds_entry(entries@[k as int], es[k as int]));
                let item = bib_item_from(e.key.clone(), &e.tags);
                bib.insert(item);
                proof {
                    assert(es.take(k + 1).drop_last() =~= es.take(k as int));
                }
                k = k + 1;
            }
            proof {
                assert(es.take(es.len() as int) =~= es);
            }
            Ok(bib)
        },
    }
}

} // verus!
