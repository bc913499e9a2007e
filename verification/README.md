# prompt_composer

Composes image-generation prompts from a spreadsheet "prompt archive". A query
such as `2 1lvl1 2lvl1 1lvl2` names a subject (its spreadsheet row) and up to
four module tokens `NlvlM` (or `N/M`) for the outfit, pose, action and scene
sheets; the composed prompt is the subject's body followed by each entry's
prompt, joined by spaces.

Layout:

- `src/` — the verified library (Verus):
  - `parse.rs`: the query language, with `parse_query` specified exactly;
  - `catalog.rs`: the archive's contents, its ranges, and reading them from
    sheet rows given as text;
  - `compose.rs`: composing a query, and drawing a random query (with `fastrand`);
  - `draw.rs`: how a random pick follows from the numbers drawn (the first
    of up to 64 draws that names an entry, else a listed one);
  - `archive.rs`: the application state (loaded archive and its metadata);
  - `archive_schema.rs`: the sheets and header rows an archive must have;
  - `template.rs`: the blank archive template, which has that shape;
  - `laws.rs`: properties across operations (a canonical query parses back,
    a random query recomposes identically, the `N/M` shorthand, parsing
    ignores spacing and letter case, ...);
  - `text.rs`, `seqs.rs`, `error.rs`, `fixtures_data.rs`: helpers, the error
    type and the test archive's contents.
- `app/` — reading and writing `.xlsx` files (calamine, rust_xlsxwriter),
  the data directory with its JSON metadata, and the commands that the
  desktop window calls (the window toolkit itself is not linked).
- `tests/` — tests of the library.
