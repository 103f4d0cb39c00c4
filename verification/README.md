# mdbook_bib

Citations and a bibliography page for books built with mdbook, as a
library verified with Verus.

- `src/` is the verified library: the BibTeX reader (`bibtex`,
  `bibliography`, `bibitem`), the citation scanner (`placeholder`), the
  rewriting of citations into links (`replace`), the bibliography page
  (`render`: which items are shown and in what order; each item is
  rendered by Handlebars behind one trusted wrapper), the settings (`config`),
  the text search (`search`), and the small string-keyed collections they
  use (`strmap`, `keyset`, `text`).
- `app/` is the mdbook preprocessor around it: it reads `book.toml`, the
  BibTeX file (or the Zotero library) and the template files, and hands
  the library plain values.
- `tests/` runs the library on concrete inputs.
