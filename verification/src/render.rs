//! Rendering the bibliography page.
//!
//! Each item is rendered with a Handlebars template, whose context is an
//! object with the item's fields: `citation_key`, `title`, `authors`,
//! `pub_month`, `pub_year` and `summary`, and, where the item has them,
//! `url`, `publisher`, `journal`, `address` and `volume`. Which items are
//! rendered, and in what order, is decided here.
use vstd::prelude::*;
use crate::bibitem::{BibItem, BibItemView};
use crate::bibliography::Bibliography;
use crate::keyset::KeySet;

verus! {

/// What Handlebars renders from `template` when the context is the object
/// whose entries are `data` (field name, text value), or `None` where it
/// fails (a template it cannot parse).
pub uninterp spec fn handlebars_render(
    template: Seq<char>,
    data: Seq<(Seq<char>, Seq<char>)>,
) -> Option<Seq<char>>;

/// Renders `template` with `Handlebars::render_template` of the `handlebars`
/// crate, from a new registry (HTML escaping, no strict mode, no helpers but
/// the built-in ones), the context being a JSON object of `data`. The
/// contract claims only that the result is the rendering that the template
/// and the data determine, and that the call fails exactly where that
/// rendering fails; it says nothing of what the rendering is.
#[verifier::external_body]
fn render_with_handlebars(template: &str, data: &Vec<(String, String)>) -> (r: Option<String>)
    ensures
        match handlebars_render(template@, data.deep_view()) {
            Some(s) => r matches Some(x) && x@ == s,
            None => r is None,
        },
{
    let context: serde_json::Map<String, serde_json::Value> = data.iter().map(
        |(k, v)| (k.clone(), serde_json::Value::String(v.clone())),
    ).collect();
    handlebars::Handlebars::new().render_template(template, &context).ok()
}

/// The entry of an optional field, where the item has it.
pub open spec fn opt_entry(name: Seq<char>, v: Option<Seq<char>>) -> Seq<(Seq<char>, Seq<char>)> {
    match v {
        Some(x) => seq![(name, x)],
        None => Seq::empty(),
    }
}

/// The context an item is rendered with: its fields by name.
pub open spec fn item_fields(item: BibItemView) -> Seq<(Seq<char>, Seq<char>)> {
    seq![
        ("citation_key"@, item.citation_key),
        ("title"@, item.title),
        ("authors"@, item.authors),
        ("pub_month"@, item.pub_month),
        ("pub_year"@, item.pub_year),
        ("summary"@, item.summary),
    ] + opt_entry("url"@, item.url) + opt_entry("publisher"@, item.publisher) + opt_entry(
        "journal"@,
        item.journal,
    ) + opt_entry("address"@, item.address) + opt_entry("volume"@, item.volume)
}

fn push_entry(data: &mut Vec<(String, String)>, name: &str, value: &String)
    ensures
        final(data).deep_view() == old(data).deep_view().push((name@, value@)),
{
    let ghost before = data.deep_view();
    data.push((name.to_owned(), value.clone()));
    assert(data.deep_view() =~= before.push((name@, value@)));
}

fn push_opt_entry(data: &mut Vec<(String, String)>, name: &str, value: &Option<String>)
    ensures
        final(data).deep_view() == old(data).deep_view() + opt_entry(
            name@,
            match value {
                Some(v) => Some(v@),
                None => None,
            },
        ),
{
    match value {
        Some(v) => {
            push_entry(data, name, v);
        },
        None => {
            assert(data.deep_view() =~= old(data).deep_view() + Seq::<
                (Seq<char>, Seq<char>),
            >::empty());
        },
    }
}

/// The rendering context of `item`.
fn item_data(item: &BibItem) -> (r: Vec<(String, String)>)
    ensures
        r.deep_view() == item_fields(item@),
{
    let mut data: Vec<(String, String)> = Vec::new();
    push_entry(&mut data, "citation_key", &item.citation_key);
    push_entry(&mut data, "title", &item.title);
    push_entry(&mut data, "authors", &item.authors);
    push_entry(&mut data, "pub_month", &item.pub_month);
    push_entry(&mut data, "pub_year", &item.pub_year);
    push_entry(&mut data, "summary", &item.summary);
    push_opt_entry(&mut data, "url", &item.url);
    push_opt_entry(&mut data, "publisher", &item.publisher);
    push_opt_entry(&mut data, "journal", &item.journal);
    push_opt_entry(&mut data, "address", &item.address);
    push_opt_entry(&mut data, "volume", &item.volume);
    assert(data.deep_view() =~= item_fields(item@));
    data
}

/// The item is shown on the page.
pub open spec fn is_selected(item: BibItemView, cited: Set<Seq<char>>, cited_only: bool) -> bool {
    !cited_only || cited.contains(item.citation_key)
}

/// The rendering of the selected items, in order, each with template `t`;
/// `None` where the rendering of one of them fails.
pub open spec fn render_items(
    items: Seq<BibItemView>,
    cited: Set<Seq<char>>,
    cited_only: bool,
    t: Seq<char>,
) -> Option<Seq<char>>
    decreases items.len(),
{
    if items.len() == 0 {
        Some(Seq::empty())
    } else {
        match render_items(items.drop_last(), cited, cited_only, t) {
            None => None,
            Some(before) => if is_selected(items.last(), cited, cited_only) {
                match handlebars_render(t, item_fields(items.last())) {
                    Some(x) => Some(before + x),
                    None => None,
                }
            } else {
                Some(before)
            },
        }
    }
}

/// Once the rendering of a prefix of the items fails, so does that of any
/// longer prefix.
proof fn lemma_failure_stays(
    items: Seq<BibItemView>,
    cited: Set<Seq<char>>,
    cited_only: bool,
    t: Seq<char>,
    k: int,
    m: int,
)
    requires
        0 <= k <= m <= items.len(),
        render_items(items.take(k), cited, cited_only, t) is None,
    ensures
        render_items(items.take(m), cited, cited_only, t) is None,
    decreases m - k,
{
    if k < m {
        assert(items.take(k + 1).drop_last() =~= items.take(k));
        lemma_failure_stays(items, cited, cited_only, t, k + 1, m);
    }
}

/// An item of the bibliography could not be rendered: its citation key.
#[derive(Debug)]
pub struct TemplateError {
    pub citation_key: String,
}

/// Renders the bibliography page: every item (or, with `cited_only`, every
/// cited item) in the bibliography's order, each with the Handlebars
/// template `references_tpl`. Fails, naming the item, where the rendering of
/// a shown item fails.
pub fn generate_bibliography_html(
    bibliography: &Bibliography,
    cited: &KeySet,
    cited_only: bool,
    references_tpl: String,
) -> (r: Result<String, TemplateError>)
    requires
        bibliography.wf(),
        cited.wf(),
    ensures
        match render_items(bibliography.items_seq(), cited@, cited_only, references_tpl@) {
            Some(s) => r matches Ok(x) && x@ == s,
            None => r is Err,
        },
        r matches Err(e) ==> exists|i: int|
            0 <= i < bibliography.items_seq().len() && {
                let item = #[trigger] bibliography.items_seq()[i];
                &&& item.citation_key == e.citation_key@
                &&& is_selected(item, cited@, cited_only)
                &&& handlebars_render(references_tpl@, item_fields(item)) is None
            },
{
    let mut out = String::new();
    proof {
        bibliography.lemma_items();
    }
    let n = bibliography.len();
    let ghost items = bibliography.items_seq();
    let mut k: usize = 0;
    while k < n
        invariant
            items == bibliography.items_seq(),
            n == items.len(),
            k <= n,
            bibliography.wf(),
            cited.wf(),
            render_items(items.take(k as int), cited@, cited_only, references_tpl@) == Some(
                out@,
            ),
        decreases n - k,
    {
        let item = bibliography.item_at(k);
        proof {
            assert(items.take(k + 1).drop_last() =~= items.take(k as int));
            assert(items.take(k + 1).last() == items[k as int]);
        }
        if !cited_only || cited.contains(item.citation_key.as_str()) {
            let data = item_data(item);
            match render_with_handlebars(references_tpl.as_str(), &data) {
                Some(x) => {
                    out.append(x.as_str());
                },
                None => {
                    proof {
                        lemma_failure_stays(items, cited@, cited_only, references_tpl@, k + 1, n as int);
                        assert(items.take(n as int) =~= items);
                    }
                    return Err(TemplateError { citation_key: item.citation_key.clone() });
                },
            }
        }
        k = k + 1;
    }
    proof {
        assert(items.take(n as int) =~= items);
    }
    Ok(out)
}

// ---------------------------------------------------------------------------
// Laws
/// Which of the eleven field names the entry at position `i` of a context
/// carries, where the optional entries start at `6`, `n1`, `n2`, `n3` and
/// `n4`.
spec fn name_index(i: int, n1: int, n2: int, n3: int, n4: int) -> int {
    if i < 6 {
        i
    } else if i < n1 {
        6
    } else if i < n2 {
        7
    } else if i < n3 {
        8
    } else if i < n4 {
        9
    } else {
        10
    }
}

/// The rendering context of an item binds each field name to the item's
/// field of that name, and to nothing else: every name occurs once, the six
/// fields every item has are always there, and an optional field is there
/// exactly when the item has it.
pub proof fn context_binds_each_field_to_its_name(item: BibItemView)
    ensures
        item_fields(item).map_values(|e: (Seq<char>, Seq<char>)| e.0).no_duplicates(),
        item_fields(item).contains(("citation_key"@, item.citation_key)),
        item_fields(item).contains(("title"@, item.title)),
        item_fields(item).contains(("authors"@, item.authors)),
        item_fields(item).contains(("pub_month"@, item.pub_month)),
        item_fields(item).contains(("pub_year"@, item.pub_year)),
        item_fields(item).contains(("summary"@, item.summary)),
        forall|v: Seq<char>| #[trigger]
            item_fields(item).contains(("url"@, v)) <==> item.url == Some(v),
        forall|v: Seq<char>| #[trigger]
            item_fields(item).contains(("publisher"@, v)) <==> item.publisher == Some(v),
        forall|v: Seq<char>| #[trigger]
            item_fields(item).contains(("journal"@, v)) <==> item.journal == Some(v),
        forall|v: Seq<char>| #[trigger]
            item_fields(item).contains(("address"@, v)) <==> item.address == Some(v),
        forall|v: Seq<char>| #[trigger]
            item_fields(item).contains(("volume"@, v)) <==> item.volume == Some(v),
{
    reveal_strlit("citation_key");
    reveal_strlit("title");
    reveal_strlit("authors");
    reveal_strlit("pub_month");
    reveal_strlit("pub_year");
    reveal_strlit("summary");
    reveal_strlit("url");
    reveal_strlit("publisher");
    reveal_strlit("journal");
    reveal_strlit("address");
    reveal_strlit("volume");
    let f = item_fields(item);
    let names = f.map_values(|e: (Seq<char>, Seq<char>)| e.0);
    let all_names = seq![
        "citation_key"@,
        "title"@,
        "authors"@,
        "pub_month"@,
        "pub_year"@,
        "summary"@,
        "url"@,
        "publisher"@,
        "journal"@,
        "address"@,
        "volume"@,
    ];
    // The names differ pairwise: by length or by a letter.
    assert forall|a: int, b: int| 0 <= a < b < 11 implies all_names[a] != all_names[b] by {
        if all_names[a].len() == all_names[b].len() {
            assert(all_names[a].len() >= 5);
            assert(all_names[a][0] != all_names[b][0] || all_names[a][1] != all_names[b][1]
                || all_names[a][3] != all_names[b][3]);
        }
    }
    assert(f[0] == ("citation_key"@, item.citation_key));
    assert(f[1] == ("title"@, item.title));
    assert(f[2] == ("authors"@, item.authors));
    assert(f[3] == ("pub_month"@, item.pub_month));
    assert(f[4] == ("pub_year"@, item.pub_year));
    assert(f[5] == ("summary"@, item.summary));
    // Each entry's name is one of the names, in the order of the list.
    let fixed = seq![
        ("citation_key"@, item.citation_key),
        ("title"@, item.title),
        ("authors"@, item.authors),
        ("pub_month"@, item.pub_month),
        ("pub_year"@, item.pub_year),
        ("summary"@, item.summary),
    ];
    let o1 = opt_entry("url"@, item.url);
    let o2 = opt_entry("publisher"@, item.publisher);
    let o3 = opt_entry("journal"@, item.journal);
    let o4 = opt_entry("address"@, item.address);
    let o5 = opt_entry("volume"@, item.volume);
    assert(f == fixed + o1 + o2 + o3 + o4 + o5);
    let n1: int = 6 + o1.len() as int;
    let n2: int = n1 + o2.len();
    let n3: int = n2 + o3.len();
    let n4: int = n3 + o4.len();
    assert forall|i: int| 0 <= i < f.len() implies #[trigger] f[i].0 == all_names[name_index(
        i,
        n1,
        n2,
        n3,
        n4,
    )] by {}
    assert forall|i: int, j: int|
        0 <= i < names.len() && 0 <= j < names.len() && i != j implies names[i] != names[j] by {
        assert(names[i] == f[i].0);
        assert(names[j] == f[j].0);
        let a = name_index(i, n1, n2, n3, n4);
        let b = name_index(j, n1, n2, n3, n4);
        assert(a != b);
        assert(0 <= a < 11 && 0 <= b < 11);
        assert(all_names[a] != all_names[b]);
    }
    assert forall|v: Seq<char>| #[trigger]
        f.contains(("url"@, v)) <==> item.url == Some(v) by {
        if f.contains(("url"@, v)) {
            let i = choose|i: int| 0 <= i < f.len() && f[i] == ("url"@, v);
            assert(f[i].0 == all_names[6]);
            assert(6 <= i < n1);
        }
        if item.url == Some(v) {
            assert(f[6] == ("url"@, v));
        }
    }
    assert forall|v: Seq<char>| #[trigger]
        f.contains(("publisher"@, v)) <==> item.publisher == Some(v) by {
        if f.contains(("publisher"@, v)) {
            let i = choose|i: int| 0 <= i < f.len() && f[i] == ("publisher"@, v);
            assert(f[i].0 == all_names[7]);
            assert(n1 <= i < n2);
        }
        if item.publisher == Some(v) {
            assert(f[n1] == ("publisher"@, v));
        }
    }
    assert forall|v: Seq<char>| #[trigger]
        f.contains(("journal"@, v)) <==> item.journal == Some(v) by {
        if f.contains(("journal"@, v)) {
            let i = choose|i: int| 0 <= i < f.len() && f[i] == ("journal"@, v);
            assert(f[i].0 == all_names[8]);
            assert(n2 <= i < n3);
        }
        if item.journal == Some(v) {
            assert(f[n2] == ("journal"@, v));
        }
    }
    assert forall|v: Seq<char>| #[trigger]
        f.contains(("address"@, v)) <==> item.address == Some(v) by {
        if f.contains(("address"@, v)) {
            let i = choose|i: int| 0 <= i < f.len() && f[i] == ("address"@, v);
            assert(f[i].0 == all_names[9]);
            assert(n3 <= i < n4);
        }
        if item.address == Some(v) {
            assert(f[n3] == ("address"@, v));
        }
    }
    assert forall|v: Seq<char>| #[trigger]
        f.contains(("volume"@, v)) <==> item.volume == Some(v) by {
        if f.contains(("volume"@, v)) {
            let i = choose|i: int| 0 <= i < f.len() && f[i] == ("volume"@, v);
            assert(f[i].0 == all_names[10]);
            assert(n4 <= i);
        }
        if item.volume == Some(v) {
            assert(f[n4] == ("volume"@, v));
        }
    }
}

/// Where every item is cited, rendering only the cited items renders all
/// of them.
pub proof fn all_cited_renders_all(
    items: Seq<BibItemView>,
    cited: Set<Seq<char>>,
    t: Seq<char>,
)
    requires
        forall|i: int| 0 <= i < items.len() ==> cited.contains(#[trigger] items[i].citation_key),
    ensures
        render_items(items, cited, true, t) == render_items(items, cited, false, t),
    decreases items.len(),
{
    if items.len() > 0 {
        let init = items.drop_last();
        assert forall|i: int| 0 <= i < init.len() implies cited.contains(
            #[trigger] init[i].citation_key,
        ) by {
            assert(init[i] == items[i]);
        }
        all_cited_renders_all(init, cited, t);
        assert(cited.contains(items[items.len() - 1].citation_key));
    }
}

/// With nothing cited, rendering only the cited items renders nothing, and
/// cannot fail.
pub proof fn nothing_cited_renders_nothing(items: Seq<BibItemView>, t: Seq<char>)
    ensures
        render_items(items, Set::empty(), true, t) == Some(Seq::<char>::empty()),
    decreases items.len(),
{
    if items.len() > 0 {
        nothing_cited_renders_nothing(items.drop_last(), t);
    }
}

/// The page shows an item's rendering exactly where the item is selected:
/// adding an item that is not selected leaves the page as it was.
pub proof fn unselected_item_adds_nothing(
    items: Seq<BibItemView>,
    item: BibItemView,
    cited: Set<Seq<char>>,
    cited_only: bool,
    t: Seq<char>,
)
    requires
        !is_selected(item, cited, cited_only),
    ensures
        render_items(items.push(item), cited, cited_only, t) == render_items(
            items,
            cited,
            cited_only,
            t,
        ),
{
    assert(items.push(item).drop_last() =~= items);
}

} // verus!
