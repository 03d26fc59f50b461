# rostdown

A kramdown-compatible Markdown to HTML renderer (GFM input, Jekyll's
default options) for a bounded subset of the language, written in Verus.
A document outside the subset is declined (`Error::Declined`, naming the
construct) rather than rendered approximately.

## Layout

- `src/lib.rs`: `to_html`, `Options`, the `CodeHighlighter` hook.
- `src/lines.rs`, `src/block.rs`: line splitting, link definitions and the
  block parser; `src/block_model.rs` states the block grammar as a
  relation that the parser is proved against.
- `src/inline.rs`, `src/span_model.rs`: the span parser and its exact model.
- `src/html_block.rs`, `src/ial.rs`, `src/entities.rs`, `src/typography.rs`,
  `src/slug.rs`, `src/escape.rs`, `src/text.rs`, `src/unicode.rs`: the
  pieces the parsers and the renderer use.
- `src/prepare.rs`, `src/render.rs`: heading ids, table of contents,
  highlighting and HTML output.
- `src/laws.rs`: properties of the library as a whole.
- `tests/`: the test suites.

Everything under `src/` is verified; the only trusted items are thin
wrappers around `std` character classification and string collection.
