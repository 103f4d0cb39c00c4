use mdbook_bib::bibitem::{authors_line, extract_date, BibItem, Tags};
use mdbook_bib::bibliography::{build_bibliography, is_bib_file, Bibliography};
use mdbook_bib::config::{Config, ConfigError};
use mdbook_bib::keyset::KeySet;
use mdbook_bib::placeholder::{find_at_placeholders, find_placeholders, PlaceholderType};
use mdbook_bib::render::generate_bibliography_html;
use mdbook_bib::replace::{path_to_root, replace_all_placeholders, Chapter};
use mdbook_bib::{find_str_in_text, NotFound};

fn item(key: &str, title: &str, url: Option<&str>) -> BibItem {
    BibItem {
        citation_key: key.to_string(),
        title: title.to_string(),
        authors: "Doe".to_string(),
        pub_month: "may".to_string(),
        pub_year: "2001".to_string(),
        summary: String::new(),
        url: url.map(|u| u.to_string()),
        publisher: None,
        journal: None,
        address: None,
        volume: None,
    }
}

#[test]
fn cite_placeholder_positions_text_and_trimmed_key() {
    let text = "ab{{  #cite   my key  }}cd";
    let plhs = find_placeholders(text);
    assert_eq!(plhs.len(), 1);
    assert_eq!(plhs[0].placeholder_type, PlaceholderType::Cite("my key".to_string()));
    assert_eq!(plhs[0].start_index, 2);
    assert_eq!(plhs[0].end_index, 24);
    assert_eq!(plhs[0].placeholder_text, "{{  #cite   my key  }}");
}

#[test]
fn malformed_links_are_not_citations() {
    // no white space between type and target, no target, a forbidden character
    assert_eq!(find_placeholders("{{#citefps}}").len(), 0);
    assert_eq!(find_placeholders("{{ #cite }}").len(), 0);
    assert_eq!(find_placeholders("{{ #cite a,b }}").len(), 0);
    assert_eq!(find_placeholders("{ #cite a }").len(), 0);
    // other link types are consumed and passed over
    let plhs = find_placeholders("{{ #include x.md }}{{ #cite k }}");
    assert_eq!(plhs.len(), 1);
    assert_eq!(plhs[0].start_index, 19);
}

#[test]
fn at_citation_key_stops_at_punctuation() {
    let plhs = find_at_placeholders("see @@fps. and @@a-b:c/d+e_f, but not @@ or @x");
    assert_eq!(plhs.len(), 2);
    assert_eq!(plhs[0].placeholder_type, PlaceholderType::AtCite("fps".to_string()));
    assert_eq!(plhs[0].placeholder_text, "@@fps");
    assert_eq!(plhs[1].placeholder_type, PlaceholderType::AtCite("a-b:c/d+e_f".to_string()));
}

#[test]
fn tags_read_after_write() {
    let mut t = Tags::new();
    t.insert("a".to_string(), "1".to_string());
    t.insert("b".to_string(), "2".to_string());
    t.insert("a".to_string(), "3".to_string());
    assert_eq!(t.len(), 2);
    assert_eq!(t.get("a").unwrap(), "3");
    assert_eq!(t.get("b").unwrap(), "2");
    assert!(t.get("c").is_none());
    assert!(t.contains_key("b"));
    t.clear();
    assert_eq!(t.len(), 0);
    assert!(!t.contains_key("a"));
}

#[test]
fn key_set_insert_tells_novelty() {
    let mut s = KeySet::new();
    assert!(s.insert("x".to_string()));
    assert!(!s.insert("x".to_string()));
    assert!(s.insert("y".to_string()));
    assert_eq!(s.len(), 2);
    assert!(s.contains("x"));
    assert!(!s.contains("z"));
}

#[test]
fn path_to_root_counts_directories() {
    assert_eq!(path_to_root(None), "");
    assert_eq!(path_to_root(Some("intro.md")), "");
    assert_eq!(path_to_root(Some("a/b/c/x.md")), "../../../");
    assert_eq!(path_to_root(Some("./a/x.md")), "../");
    assert_eq!(path_to_root(Some("a//x.md")), "../");
    assert_eq!(path_to_root(Some("../x.md")), "");
    assert_eq!(path_to_root(Some("a/../../b/x.md")), "../");
}

#[test]
fn bibtex_fields_and_entries() {
    let src = "junk before\n@Article{k1, Title = {A {Nested} Title}, YEAR = 1999 ,\n note = plain words ,}\n% junk\n@comment{ anything {here} }\n@misc{k2}\n";
    let b = build_bibliography(src.to_string()).unwrap();
    assert_eq!(b.len(), 2);
    let k1 = b.get("k1").unwrap();
    assert_eq!(k1.title, "A {Nested} Title");
    assert_eq!(k1.pub_year, "1999");
    assert_eq!(k1.pub_month, "N/A");
    assert_eq!(k1.authors, "N/A");
    let k2 = b.get("k2").unwrap();
    assert_eq!(k2.title, "N/A");
    assert!(k2.url.is_none());
}

#[test]
fn later_entry_with_same_key_replaces_earlier() {
    let src = "@misc{k, title = {first}}\n@misc{other, title = {o}}\n@misc{k, title = {second}}";
    let b = build_bibliography(src.to_string()).unwrap();
    assert_eq!(b.len(), 2);
    assert_eq!(b.get("k").unwrap().title, "second");
    assert_eq!(b.item_at(0).citation_key, "k");
    assert_eq!(b.item_at(1).citation_key, "other");
}

#[test]
fn malformed_entry_is_an_error_at_its_at_sign() {
    let src = "@misc{ok, title = {x}}\n@misc{bad, title = {unclosed}";
    let err = build_bibliography(src.to_string()).err().unwrap();
    assert_eq!(err.position, 23);
    assert!(build_bibliography("@{k}".to_string()).is_err());
    assert!(build_bibliography("@misc{k title = {x}}".to_string()).is_err());
    assert!(build_bibliography("@misc{k, = {x}}".to_string()).is_err());
    assert_eq!(build_bibliography(String::new()).unwrap().len(), 0);
}

#[test]
fn quotes_are_removed_before_reading() {
    let b = build_bibliography("@misc{q, title = \"Quoted Title\"}".to_string()).unwrap();
    assert_eq!(b.get("q").unwrap().title, "Quoted Title");
}

#[test]
fn author_lines() {
    assert_eq!(authors_line("Knuth, Donald"), "Knuth");
    assert_eq!(authors_line("Ada Lovelace and Charles Babbage"), "Ada & Charles");
    assert_eq!(authors_line("A, B and C, D and E, F and G, H"), "A et al.");
    assert_eq!(authors_line("Sandand"), "Sandand");
    assert_eq!(authors_line("N/A"), "N/A");
}

#[test]
fn dates_from_fields() {
    let mut t = Tags::new();
    t.insert("date".to_string(), "1999-12-31".to_string());
    t.insert("year".to_string(), "2000".to_string());
    assert_eq!(extract_date(&t), ("1999".to_string(), "12".to_string()));
    t.insert("date".to_string(), "-05".to_string());
    assert_eq!(extract_date(&t), ("".to_string(), "05".to_string()));
}

#[test]
fn rendering_escapes_and_conditions() {
    let mut b = Bibliography::new();
    b.insert(item("k1", "Fish & <Chips>", None));
    b.insert(item("k2", "Plain", Some("http://x.org/?a=1&b=2")));
    let tpl = "[{{ title }}]{{#if url}}<{{url}}>{{/if}}{{nothing}};".to_string();
    let html = generate_bibliography_html(&b, &KeySet::new(), false, tpl).unwrap();
    assert_eq!(
        html,
        "[Fish &amp; &lt;Chips&gt;];[Plain]<http://x.org/?a&#x3D;1&amp;b&#x3D;2>;"
    );
    // a template without tags is repeated as it is
    let html = generate_bibliography_html(&b, &KeySet::new(), false, "<hr/>".to_string()).unwrap();
    assert_eq!(html, "<hr/><hr/>");
}

#[test]
fn template_that_does_not_parse_names_the_first_shown_item() {
    let mut b = Bibliography::new();
    b.insert(item("k1", "One", None));
    b.insert(item("k2", "Two", None));
    let err = generate_bibliography_html(&b, &KeySet::new(), false, "{{#if url}}U".to_string())
        .err()
        .unwrap();
    assert_eq!(err.citation_key, "k1");
    let mut cited = KeySet::new();
    cited.insert("k2".to_string());
    let err = generate_bibliography_html(&b, &cited, true, "{{#if url}}U".to_string())
        .err()
        .unwrap();
    assert_eq!(err.citation_key, "k2");
    // nothing shown, nothing rendered
    assert_eq!(
        generate_bibliography_html(&b, &KeySet::new(), true, "{{#if url}}U".to_string()).unwrap(),
        ""
    );
}

#[test]
fn rendering_only_cited_items() {
    let mut b = Bibliography::new();
    b.insert(item("k1", "One", None));
    b.insert(item("k2", "Two", None));
    let mut cited = KeySet::new();
    assert_eq!(generate_bibliography_html(&b, &cited, true, "{{title}}".to_string()).unwrap(), "");
    cited.insert("k2".to_string());
    assert_eq!(generate_bibliography_html(&b, &cited, true, "{{title}}".to_string()).unwrap(), "Two");
    cited.insert("k1".to_string());
    assert_eq!(
        generate_bibliography_html(&b, &cited, true, "{{title}}".to_string()).unwrap(),
        "OneTwo"
    );
}

#[test]
fn replacing_both_forms_and_recording_known_keys() {
    let mut b = Bibliography::new();
    b.insert(item("k1", "One", None));
    let mut cited = KeySet::new();
    let chapter = Chapter::new(
        "x {{ #cite k1 }} y @@k1 z {{ #cite nope }} @@nope.".to_string(),
        "d/c.md",
    );
    let out = replace_all_placeholders(&chapter, &b, &mut cited);
    assert_eq!(
        out,
        "x [Doe, 2001](../bibliography.html#k1) y [Doe, 2001](../bibliography.html#k1) z \\[Unknown bib ref: nope\\] \\[Unknown bib ref: nope\\]."
    );
    assert_eq!(cited.len(), 1);
    assert!(cited.contains("k1"));
}

#[test]
fn text_without_citations_comes_back_unchanged() {
    let b = Bibliography::new();
    let mut cited = KeySet::new();
    let text = "Plain text with {braces} and @signs but no citations.";
    let out = replace_all_placeholders(&Chapter::new(text.to_string(), "a.md"), &b, &mut cited);
    assert_eq!(out, text);
    assert_eq!(cited.len(), 0);
}

#[test]
fn finding_strings_in_text() {
    assert!(find_str_in_text("needle", "hay\nmore needle here\n").is_ok());
    assert!(find_str_in_text("b\nc", "ab\ncd\n").is_ok());
    assert!(find_str_in_text("x\r", "ax\r\nb").is_ok());
    assert!(find_str_in_text("", "").is_ok());
    assert!(find_str_in_text("abc", "ab").is_err());
    let r: Result<(), NotFound> = find_str_in_text("zzz", "a\nb");
    assert!(r.is_err());
}

#[test]
fn render_bib_values() {
    let mut t = Tags::new();
    t.insert("render-bib".to_string(), "cited".to_string());
    assert!(Config::build_from(Some(&t), None, None, None).unwrap().cited_only);
    t.insert("render-bib".to_string(), "All".to_string());
    match Config::build_from(Some(&t), None, None, None) {
        Err(ConfigError::InvalidRenderBib(v)) => assert_eq!(v, "All"),
        Ok(_) => panic!("the value is not a valid one"),
    }
    let c = Config::build_from(None, None, None, Some("js();".to_string())).unwrap();
    assert_eq!(c.title, "Bibliography");
    assert_eq!(c.js_html, "<script type=\"text/javascript\">\njs();\n</script>\n\n");
}

#[test]
fn bib_extension() {
    assert!(is_bib_file("biblio.bib"));
    assert!(is_bib_file("dir/a.b.bib"));
    assert!(!is_bib_file("biblio.wrong_extension"));
    assert!(!is_bib_file(".bib"));
    assert!(!is_bib_file("dir/.bib"));
    assert!(!is_bib_file("bib"));
}
