# docx_reader

A verified reader for DOCX (WordprocessingML) packages. It opens the ZIP
package, follows the package relationships to the main document part, loads
the styles, numbering, hyperlinks and images that part refers to, and turns
`word/document.xml` into a stream of document events (paragraphs, headings,
lists, tables, text styles, links, images).

The library under `src/` is written in Verus: every function carries a
`requires`/`ensures` contract that Verus proves. Contracts over the
document's XML speak of its token sequence, a function of the part's bytes
named after what `quick-xml` yields. For the body parser they state where
each element's reading ends, when it fails and with which message, and the
frame of the events it emits (what opens and closes a cell, a row, a table,
a link); the events emitted inside a paragraph or a run are not all pinned
down. Calls into `quick-xml`,
`zip`, `flate2` and `crc32fast` go through small trusted wrappers whose
contracts are documented beside them.

## Layout

- `src/xml.rs`, `src/discovery.rs`: XML tokens, with and without namespaces.
- `src/paths.rs`, `src/rels.rs`, `src/content_types.rs`: part names,
  relationships and content types.
- `src/styles.rs`, `src/numbering.rs`, `src/properties.rs`: style
  classification, list definitions and run/paragraph properties.
- `src/document.rs`: the streaming parser of the main document part.
- `src/package.rs`, `src/entry_stream.rs`, `src/inflate.rs`, `src/io.rs`:
  the package, streaming of single entries with integrity checks, and raw
  DEFLATE decoding.
- `src/events.rs`, `src/text.rs`, `src/assoc.rs`: the event model, text
  helpers and association lists.
- `src/field_codes.rs`, `src/symbol_fonts.rs`: `HYPERLINK` field
  instructions and symbol-font characters.
- `src/oox.rs`: namespace URIs and relationship types.
- `src/laws.rs`: properties that span several functions, stated and proved.
- `tests/`: the test suite; `app/`: file and stream I/O around the library.
