# textbuf

A text buffer for editors and user interfaces: lines of text that are shaped
and laid out, scrolled, hit, highlighted and walked over with a cursor. The
lines are either kept one by one or made on demand from one large text, of which
only the lines that were visited lately are materialized. The large text is
called a rope. It is held as a `String` with a table of where its lines begin,
not as a tree: an edit of it splices the string and builds the table anew.

Every function of the library has a contract that Verus checks, but for the thin
wrappers around `lru` and `unicode-segmentation` in `line_lru` and
`segmentation`: what those crates do is stated there and taken on trust.

## Layout

- `src/` is the library.
  - Text: `text`, `ending`, `breaks`, `line_iter`, `paragraphs`,
    `segmentation` (grapheme clusters and words, from `unicode-segmentation`).
  - Lines: `attrs`, `layout`, `shape_cap`, `line`, `set_text`, `rich_text`.
  - Ropes: `rope_text`, `metadata`, `recency`, `line_cache`, `line_lru`
    (`lru::LruCache`), `rope_store`.
  - Buffers: `buffer`, `settings`, `dirty`, `resolve`, `shaping`, `scrolling`,
    `settling`, `view`, `view_cursor`, `run_iter`, `runs`, `hit`, `motion`,
    `moving`, `render`, `borrowed`.
  - Pixels: `pixel`, `whole_pixels`, `cell_font` (a font of cells that computes
    with whole pixels).
  - What holds across operations: `rope_laws`, `tracking`, `motion_laws`,
    `run_laws`, `settle_laws`, `cursor_laws`, `view_laws`.
- `tests/` runs the library on concrete values.
- `app/` is the library in single precision: reading, logging, and drawing with
  a callback.

## How contracts speak

Pixel quantities are bit patterns of single-precision numbers. Comparing them is
part of the library; adding and scaling them is left to a `PixelMath`, and
shaping to a `FontSystem`. A contract says which sums are formed and what is
compared with what, for every such implementation. `CellFont` is one of them,
and the laws about scrolling are proved for its arithmetic.

A `Page` is what the lines of a buffer show once they are laid out. Where all
results that a buffer keeps are up to date, its operations are functions of the
page; where some are not, contracts say which lines are shaped, one after the
other, and what each step finds.
