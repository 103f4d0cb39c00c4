use mdbook_bib::bibitem::{extract_date, Tags};
use mdbook_bib::bibliography::{build_bibliography, Bibliography};
use mdbook_bib::config::{Config, DEFAULT_CSS_TEMPLATE, DEFAULT_HB_TEMPLATE, DEFAULT_JS_TEMPLATE};
use mdbook_bib::keyset::KeySet;
use mdbook_bib::placeholder::{find_at_placeholders, find_placeholders, PlaceholderType};
use mdbook_bib::render::generate_bibliography_html;
use mdbook_bib::replace::{replace_all_placeholders, Chapter};

const DUMMY_BIB_SRC: &str = r#"
@misc {fps,
    author = {"Francisco Perez-Sorrosal"},
    title = {"This is a bib entry!"},
    month = {"oct"},
    year = {"2020"},
    what_is_this = {"blabla"},
}
@book{rust_book,
    author = {"Klabnik, Steve and Nichols, Carol"},
    title = {"The Rust Programming Language"},
    year = {"2018"},
    isbn = {"1593278284"},
    publisher = {"No Starch Press"},
    url = {https://doc.rust-lang.org/book/},
}
@book{book_of_spells,
    author = {"James, Andrew and Wilson, Andrew Lincoln and Francisco Perez-Sorrosal"},
    title = {"The Rust Programming Language"},
    year = {"2019"},
    isbn = {"1593278284"},
    url = {https://doc.rust-lang.org/book/},
    publisher = {"Cambridge University Press"},
    journal = {"Journal of Fluid Mechanics"},
    address = {"Cambridge"},
    volume = {"918"},
}
"#;

const DUMMY_TEXT_WITH_2_VALID_CITE_PLACEHOLDERS: &str = r#"
this is a dumb text that includes citations like {{ #cite fps }} and {{ #cite rust_book }}
"#;

const DUMMY_TEXT_WITH_A_VALID_AND_AN_INVALID_CITE_PLACEHOLDERS: &str = r#"
this is a dumb text that includes valid and invalid citations like {{ #cite fps }} and {{ #cite im_not_there }}
"#;

const DUMMY_TEXT_WITH_A_VALID_AT_CITE_PLACEHOLDER: &str = r#"
this is a dumb text that includes a valid citation with double @, as in @@fps.
"#;

const DUMMY_TEXT_WITH_2_UNKNOWN_PLACEHOLDERS: &str = r#"
this is a dumb text that includes invalid placeholders like {{ #zoto uhmmmm }} and {{ #peto ahhhhmmm }}
"#;

fn default_template() -> String {
    format!("\n\n{}\n\n", DEFAULT_HB_TEMPLATE)
}

#[test]
fn bibliography_builder_returns_a_bibliography() {
    let bibliography_loaded: Bibliography = build_bibliography(DUMMY_BIB_SRC.to_string()).unwrap();
    assert_eq!(bibliography_loaded.len(), 3);
    assert_eq!(bibliography_loaded.get("fps").unwrap().citation_key, "fps");
}

#[test]
fn bibliography_render_all_vs_cited() {
    let bibliography_loaded: Bibliography = build_bibliography(DUMMY_BIB_SRC.to_string()).unwrap();

    let mut cited = KeySet::new();
    cited.insert("fps".to_string());

    let html = generate_bibliography_html(&bibliography_loaded, &cited, false, default_template()).unwrap();

    assert!(html.contains("This is a bib entry!"));
    assert!(html.contains("The Rust Programming Language"));

    let html = generate_bibliography_html(&bibliography_loaded, &cited, true, default_template()).unwrap();

    assert!(html.contains("This is a bib entry!"));
    assert!(!html.contains("The Rust Programming Language"));
}

#[test]
fn bibliography_includes_and_renders_url_when_present_in_bibitems() {
    let bibliography_loaded: Bibliography = build_bibliography(DUMMY_BIB_SRC.to_string()).unwrap();

    // book_of_spells contains a publisher, journal, address and volume
    let book_of_spells = bibliography_loaded.get("book_of_spells");
    assert_eq!(&book_of_spells.unwrap().authors, "James et al.");
    assert_eq!(
        book_of_spells.unwrap().publisher.as_ref().unwrap(),
        "Cambridge University Press"
    );
    assert_eq!(
        book_of_spells.unwrap().journal.as_ref().unwrap(),
        "Journal of Fluid Mechanics"
    );
    assert_eq!(
        book_of_spells.unwrap().address.as_ref().unwrap(),
        "Cambridge"
    );
    assert_eq!(book_of_spells.unwrap().volume.as_ref().unwrap(), "918");

    // fps dummy book does not include a url for in the BibItem
    let fps = bibliography_loaded.get("fps");
    assert_eq!(&fps.unwrap().authors, "Francisco",);
    assert!(fps.unwrap().url.is_none());
    assert!(fps.unwrap().journal.is_none());

    // rust_book does...
    let rust_book = bibliography_loaded.get("rust_book");
    assert_eq!(&rust_book.unwrap().authors, "Klabnik & Nichols",);
    assert_eq!(
        rust_book.unwrap().url.as_ref().unwrap(),
        "https://doc.rust-lang.org/book/"
    );
    assert!(rust_book.unwrap().address.is_none());

    // ...and is included in the render
    let html = generate_bibliography_html(&bibliography_loaded, &KeySet::new(), false, default_template()).unwrap();
    assert!(html.contains("href=\"https://doc.rust-lang.org/book/\""));
}

#[test]
fn valid_and_invalid_citations_are_replaced_properly_in_book_text() {
    let bibliography: Bibliography = build_bibliography(DUMMY_BIB_SRC.to_string()).unwrap();

    let mut cited: KeySet = KeySet::new();

    // Check valid references included in a dummy text
    let chapter = Chapter::new(DUMMY_TEXT_WITH_2_VALID_CITE_PLACEHOLDERS.into(), "source.md");
    let text_with_citations = replace_all_placeholders(&chapter, &bibliography, &mut cited);
    assert!(text_with_citations.contains("[Francisco, 2020](bibliography.html#fps)"));
    assert!(text_with_citations.contains("[Klabnik & Nichols, 2018](bibliography.html#rust_book)"));

    // Check a mix of valid and invalid references included/not included in a dummy text
    let chapter = Chapter::new(
        DUMMY_TEXT_WITH_A_VALID_AND_AN_INVALID_CITE_PLACEHOLDERS.into(),
        "source.md",
    );
    let text_with_citations = replace_all_placeholders(&chapter, &bibliography, &mut cited);
    assert!(text_with_citations.contains("[Francisco, 2020]"));
    assert!(text_with_citations.contains("[Unknown bib ref:"));
}

#[test]
fn citations_in_subfolders_link_properly() {
    let bibliography: Bibliography = build_bibliography(DUMMY_BIB_SRC.to_string()).unwrap();

    // Check valid references included in a dummy text
    let check_citations_for = |chapter: &Chapter, link: &str| {
        let text_with_citations =
            replace_all_placeholders(chapter, &bibliography, &mut KeySet::new());

        assert!(
            text_with_citations.contains(&format!("[Francisco, 2020]({}#fps)", link)),
            "Expecting link to '{}' in string '{}'",
            link,
            text_with_citations
        );
        assert!(
            text_with_citations.contains(&format!("[Klabnik & Nichols, 2018]({}#rust_book)", link)),
            "Expecting link to '{}' in string '{}'",
            link,
            text_with_citations
        );
    };

    let draft_chapter = Chapter::new_draft(DUMMY_TEXT_WITH_2_VALID_CITE_PLACEHOLDERS.into());
    check_citations_for(&draft_chapter, "bibliography.html");

    let chapter_root = Chapter::new(DUMMY_TEXT_WITH_2_VALID_CITE_PLACEHOLDERS.into(), "source.md");
    check_citations_for(&chapter_root, "bibliography.html");

    let chapter_1down =
        Chapter::new(DUMMY_TEXT_WITH_2_VALID_CITE_PLACEHOLDERS.into(), "dir1/source.md");
    check_citations_for(&chapter_1down, "../bibliography.html");

    let chapter_2down =
        Chapter::new(DUMMY_TEXT_WITH_2_VALID_CITE_PLACEHOLDERS.into(), "dir1/dir2/source.md");
    check_citations_for(&chapter_2down, "../../bibliography.html");

    let chapter_noncanon = Chapter::new(
        DUMMY_TEXT_WITH_2_VALID_CITE_PLACEHOLDERS.into(),
        "dir1/dir2/../source.md",
    );
    check_citations_for(&chapter_noncanon, "../bibliography.html");
}

#[test]
fn find_only_citation_placeholders() {
    // As long as placeholders are related to cites, they are found, independently of whether they
    // are valid or not
    let plhs = find_placeholders(DUMMY_TEXT_WITH_A_VALID_AND_AN_INVALID_CITE_PLACEHOLDERS);
    let mut items = 0;
    for plh in plhs {
        match plh.placeholder_type {
            PlaceholderType::Cite(_) => items += 1,
            PlaceholderType::AtCite(_) => items += 1,
        };
    }
    assert_eq!(items, 2);

    // When no recognized placeholders are found, they are ignored
    let plhs = find_placeholders(DUMMY_TEXT_WITH_2_UNKNOWN_PLACEHOLDERS);
    items = 0;
    for _ in plhs {
        panic!("Only Cite should be recognized as placeholder type!!!");
    }
    assert_eq!(items, 0);
}

#[test]
fn find_only_at_citation_placeholders() {
    // As long as placeholders are related to cites, they are found, independently of whether they
    // are valid or not
    let plhs = find_at_placeholders(DUMMY_TEXT_WITH_A_VALID_AT_CITE_PLACEHOLDER);
    let mut items = 0;
    for plh in plhs {
        match plh.placeholder_type {
            PlaceholderType::Cite(_) => items += 1,
            PlaceholderType::AtCite(_) => items += 1,
        };
    }
    assert_eq!(items, 1);
}

fn table_of(pairs: &[(&str, &str)]) -> Tags {
    let mut t = Tags::new();
    for (k, v) in pairs {
        t.insert(k.to_string(), v.to_string());
    }
    t
}

#[test]
fn check_config_attributes() {
    // Check config with default values is returned when an empty config is passed in a table!!!
    let t: Tags = Tags::new();
    match Config::build_from(Some(&t), None, None, None) {
        Ok(config) => {
            println!("{:?}", config);
            assert_eq!(config.title, "Bibliography");
            assert_eq!(config.bibliography, None);
            assert_eq!(config.zotero_uid, None);
            assert!(config.cited_only);
            let default_tpl = format!("\n\n{}\n\n", DEFAULT_HB_TEMPLATE);
            assert_eq!(config.bib_hb_html, default_tpl);
            let default_css = format!("<style>{}</style>\n\n", DEFAULT_CSS_TEMPLATE);
            assert_eq!(config.css_html, default_css);
            let default_js = format!(
                "<script type=\"text/javascript\">\n{}\n</script>\n\n",
                DEFAULT_JS_TEMPLATE
            );
            assert_eq!(config.js_html, default_js);
        }
        Err(_) => panic!("there's supposed to be always a config!!!"),
    }

    // Check config attributes are processed (those that are not specified are ignored)!!!
    let t = table_of(&[
        ("bibliography", "biblio.bib"),
        ("zotero-uid", "123456"),
        ("title", "References"),
        ("render-bib", "all"),
        ("not-specified-config-attr", "uhg???"),
    ]);
    match Config::build_from(Some(&t), None, None, None) {
        Ok(config) => {
            println!("{:?}", config);
            assert_eq!(config.title, "References");
            assert_eq!(config.bibliography.as_deref(), Some("biblio.bib"));
            assert_eq!(config.zotero_uid.as_deref(), Some("123456"));
            assert!(!config.cited_only);
        }
        Err(_) => panic!("there's supposed to be always a config!!!"),
    }

    // Intentionally add a failure specifying a non-existing value for render-bib
    let t = table_of(&[("render-bib", "non-existent!")]);
    match Config::build_from(Some(&t), None, None, None) {
        Ok(_) => panic!("there's supposed to be a failure in the config!!!"),
        Err(_) => println!("Yayyyyy! A failure that is supposed to happen!"),
    }

    // Test adhoc template and style (the texts of the files that the table names)
    let example_hb_template = "<p>{{title}}</p>".to_string();
    let example_css_template = ".bib_div { color: red; }".to_string();
    let t = table_of(&[("hb-tpl", "render/my_references.hbs"), ("css", "render/my_style.css")]);
    match Config::build_from(
        Some(&t),
        Some(example_hb_template.clone()),
        Some(example_css_template.clone()),
        None,
    ) {
        Ok(config) => {
            println!("{:?}", config);
            let adhoc_tpl = format!("\n\n{}\n\n", example_hb_template);
            assert_eq!(config.bib_hb_html, adhoc_tpl);
            let adhoc_css = format!("<style>{}</style>\n\n", example_css_template);
            assert_eq!(config.css_html, adhoc_css);
            let default_js = format!(
                "<script type=\"text/javascript\">\n{}\n</script>\n\n",
                DEFAULT_JS_TEMPLATE
            );
            assert_eq!(config.js_html, default_js);
        }
        Err(e) => panic!("there's supposed to be always a config!!!\n {:?}", e),
    }
}

#[test]
fn check_date_extractions_from_biblatex() {
    let mut fake_bib_entry: Tags = Tags::new();

    // Check when no date and no year/month we return the standard Non Available string
    let (year, month) = extract_date(&fake_bib_entry);
    assert_eq!(year, "N/A");
    assert_eq!(month, "N/A");

    // Check date is split properly
    fake_bib_entry.insert("date".to_string(), "2021-02-21".to_string());
    let (year, month) = extract_date(&fake_bib_entry);
    assert_eq!(year, "2021");
    assert_eq!(month, "02");

    // Check date is split properly
    fake_bib_entry.insert("date".to_string(), "2021".to_string());
    let (year, month) = extract_date(&fake_bib_entry);
    assert_eq!(year, "2021");
    assert_eq!(month, "N/A");

    // Check date takes precedence over year/month
    fake_bib_entry.clear();
    fake_bib_entry.insert("date".to_string(), "2020-03".to_string());
    fake_bib_entry.insert("year".to_string(), "2021".to_string());
    fake_bib_entry.insert("month".to_string(), "jul".to_string());
    let (year, month) = extract_date(&fake_bib_entry);
    assert_eq!(year, "2020");
    assert_eq!(month, "03");

    // Check year and month work too
    fake_bib_entry.clear();
    fake_bib_entry.insert("year".to_string(), "2021".to_string());
    fake_bib_entry.insert("month".to_string(), "jul".to_string());
    let (year, month) = extract_date(&fake_bib_entry);
    assert_eq!(year, "2021");
    assert_eq!(month, "jul");

    // Check only month works too
    fake_bib_entry.clear();
    fake_bib_entry.insert("month".to_string(), "jul".to_string());
    let (year, month) = extract_date(&fake_bib_entry);
    assert_eq!(year, "N/A");
    assert_eq!(month, "jul");

    // Check only year works too
    fake_bib_entry.clear();
    fake_bib_entry.insert("year".to_string(), "2021".to_string());
    let (year, month) = extract_date(&fake_bib_entry);
    assert_eq!(year, "2021");
    assert_eq!(month, "N/A");
}
