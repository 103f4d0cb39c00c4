//! Citations and bibliographies for books written in Markdown: a BibTeX
//! reader, the scanner that finds `{{ #cite key }}` and `@@key` citations in
//! chapter text, the rewriting of those citations into links, and the
//! rendering of the bibliography page.
use vstd::prelude::*;

pub mod text;
pub mod placeholder;
pub mod strmap;
pub mod bibitem;
pub mod bibtex;
pub mod bibliography;
pub mod keyset;
pub mod render;
pub mod replace;
pub mod search;
pub mod config;

pub use search::{find_str_in_text, NotFound};
