//! The preprocessor's settings, read from the book's configuration table.
use vstd::prelude::*;
use crate::bibitem::{opt_tag, opt_view, Tags};

verus! {

/// The template each bibliography item is rendered with, unless the book
/// names its own (`hb-tpl`).
pub const DEFAULT_HB_TEMPLATE: &'static str = "<div class=\"bib_div\">
    <a class=\"bib_key\" id=\"{{citation_key}}\">[{{citation_key}}]</a> {{authors}}. <i>{{title}}</i>.{{#if journal}} {{journal}}.{{/if}}{{#if publisher}} {{publisher}}.{{/if}}{{#if address}} {{address}}.{{/if}}{{#if volume}} Volume {{volume}}.{{/if}} {{pub_month}} {{pub_year}}.{{#if url}} <a href=\"{{url}}\">{{url}}</a>{{/if}}
    {{#if summary}}<details><summary>Abstract</summary><p>{{summary}}</p></details>{{/if}}
</div>";

/// The style of the bibliography page, unless the book names its own (`css`).
pub const DEFAULT_CSS_TEMPLATE: &'static str = ".bib_div {
    margin-bottom: 1em;
    padding-left: 1em;
    border-left: 3px solid var(--quote-border);
}
.bib_key {
    font-weight: bold;
}";

/// The script of the bibliography page, unless the book names its own (`js`).
pub const DEFAULT_JS_TEMPLATE: &'static str = "document.querySelectorAll('.bib_key').forEach(function (a) {
    a.title = a.id;
});";

/// The settings of the preprocessor.
#[derive(Debug)]
pub struct Config {
    /// The title of the bibliography page.
    pub title: String,
    /// The BibTeX file, relative to the book's source directory.
    pub bibliography: Option<String>,
    /// The Zotero user whose library is the bibliography.
    pub zotero_uid: Option<String>,
    /// Whether the page shows only the cited items.
    pub cited_only: bool,
    /// The item template, framed by blank lines.
    pub bib_hb_html: String,
    /// The page's style, as a `<style>` element.
    pub css_html: String,
    /// The page's script, as a `<script>` element.
    pub js_html: String,
}

/// The settings could not be read.
#[derive(Debug)]
pub enum ConfigError {
    /// `render-bib` is neither `all` nor `cited`: the value given.
    InvalidRenderBib(String),
}

/// The entries of an optional table.
pub open spec fn table_view(table: Option<&Tags>) -> Map<Seq<char>, Seq<char>> {
    match table {
        Some(t) => t@,
        None => Map::empty(),
    }
}

/// The text of an optional file, or the default.
pub open spec fn or_default(o: Option<String>, default: Seq<char>) -> Seq<char> {
    match o {
        Some(s) => s@,
        None => default,
    }
}

fn text_or(o: Option<String>, default: &str) -> (r: String)
    ensures
        r@ == or_default(o, default@),
{
    match o {
        Some(s) => s,
        None => default.to_owned(),
    }
}

fn lookup(table: Option<&Tags>, name: &str) -> (r: Option<String>)
    requires
        table matches Some(t) ==> t.wf(),
    ensures
        opt_view(r) == opt_tag(table_view(table), name@),
{
    match table {
        Some(t) => match t.get(name) {
            Some(v) => Some(v.clone()),
            None => None,
        },
        None => None,
    }
}

impl Config {
    /// Reads the settings from the preprocessor's table: `title` (default
    /// `Bibliography`), `bibliography`, `zotero-uid` and `render-bib` (`all`
    /// or `cited`, the default). `hb_tpl`, `css` and `js` are the texts of the
    /// files that the table names under `hb-tpl`, `css` and `js`, where it
    /// names them; where they are missing the defaults are used. Fails where
    /// `render-bib` has another value.
    pub fn build_from(
        table: Option<&Tags>,
        hb_tpl: Option<String>,
        css: Option<String>,
        js: Option<String>,
    ) -> (r: Result<Config, ConfigError>)
        requires
            table matches Some(t) ==> t.wf(),
        ensures
            ({
                let tm = table_view(table);
                let rb = opt_tag(tm, "render-bib"@);
                match r {
                    Err(ConfigError::InvalidRenderBib(v)) => rb == Some(v@) && v@ != "all"@ && v@
                        != "cited"@,
                    Ok(c) => {
                        &&& (rb is None || rb == Some("all"@) || rb == Some("cited"@))
                        &&& c.title@ == if tm.contains_key("title"@) {
                            tm["title"@]
                        } else {
                            "Bibliography"@
                        }
                        &&& opt_view(c.bibliography) == opt_tag(tm, "bibliography"@)
                        &&& opt_view(c.zotero_uid) == opt_tag(tm, "zotero-uid"@)
                        &&& c.cited_only == (rb != Some("all"@))
                        &&& c.bib_hb_html@ == "\n\n"@ + or_default(hb_tpl, DEFAULT_HB_TEMPLATE@)
                            + "\n\n"@
                        &&& c.css_html@ == "<style>"@ + or_default(css, DEFAULT_CSS_TEMPLATE@)
                            + "</style>\n\n"@
                        &&& c.js_html@ == "<script type=\"text/javascript\">\n"@ + or_default(
                            js,
                            DEFAULT_JS_TEMPLATE@,
                        ) + "\n</script>\n\n"@
                    },
                }
            }),
    {
        let render_bib = lookup(table, "render-bib");
        let cited_only = match render_bib {
            None => true,
            Some(v) => {
                if v == "all".to_owned() {
                    false
                } else if v == "cited".to_owned() {
                    true
                } else {
                    return Err(ConfigError::InvalidRenderBib(v));
                }
            },
        };
        let title = match lookup(table, "title") {
            Some(t) => t,
            None => "Bibliography".to_owned(),
        };
        let mut bib_hb_html = "\n\n".to_owned();
        bib_hb_html.append(text_or(hb_tpl, DEFAULT_HB_TEMPLATE).as_str());
        bib_hb_html.append("\n\n");
        let mut css_html = "<style>".to_owned();
        css_html.append(text_or(css, DEFAULT_CSS_TEMPLATE).as_str());
        css_html.append("</style>\n\n");
        let mut js_html = "<script type=\"text/javascript\">\n".to_owned();
        js_html.append(text_or(js, DEFAULT_JS_TEMPLATE).as_str());
        js_html.append("\n</script>\n\n");
        Ok(
            Config {
                title,
                bibliography: lookup(table, "bibliography"),
                zotero_uid: lookup(table, "zotero-uid"),
                cited_only,
                bib_hb_html,
                css_html,
                js_html,
            },
        )
    }
}

} // verus!
