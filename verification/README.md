# aidoku_sources

Verified logic of two Aidoku manga sources, rouman5.com (`roumanwu`) and
nnhm7.com (`nnhanman`), written in Verus.

- `src/` is the library. It works on plain records of what a page shows
  (anchor `href`s, element texts, script bodies) and proves, for every
  input, what it builds from them: request URLs, listing and detail
  records, chapter page lists, deep-link routes, the filters and settings
  the sources offer, and the row-band plan that re-stitches scrambled
  images (Base64 key, MD5 digest, band permutation).
  - `text.rs`, `num.rs`: character-level string and number primitives.
  - `model.rs`: the records handed to the app.
  - `roumanwu/`, `nnhanman/`: one module per source.
- `tests/` runs the library on concrete pages and URLs.
- `app/` is the glue the reader app loads: it fetches pages, reads the
  elements into the library's records, draws re-stitched images on the
  app's canvas, and converts the library's records into the app's types.
