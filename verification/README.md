# vortex_mod_gallery

The verified core of a gallery crawler plugin: it decides which gallery
provider (Imgur, Reddit, Flickr, or a generic web page) a URL belongs to,
extracts the provider-specific ids, and post-processes the image links a
provider returned (deduplication, minimum-resolution filtering, stable
auto-generated filenames).

Layout:

- `src/url_matcher.rs` — URL splitting, host lists, the three path
  grammars, classification and id extraction;
- `src/filter.rs` — `WxH` parsing, resolution filter, deduplication,
  filename generation, with their laws;
- `src/lib.rs` — routing answers and the post-processing pipeline;
- `src/plugin_api.rs` — the decisions behind the host exports (what to
  fetch for a URL, album ids, reading configuration values);
- `src/text.rs` — character-level helpers and their facts;
- `src/error.rs`, `src/link.rs` — the error and image-link types;
- `app/` — the WASM exports that need no provider API (`can_handle`,
  `supports_playlist`, `is_http_url`), the host-function imports, the
  configuration readers and the serialisable copies of the library types.
  The `extract_links` and `extract_generic` exports are not there: the
  request builders and reply/HTML parsers they call between
  `extraction_target` / `generic_target` and `finish_extraction` are not
  part of this crate's sources;
- `tests/` — scenario tests, and differential tests of the path grammars
  against the `regex` crate.

Notes:

- De-duplication remembers the URLs already kept by scanning the kept
  list rather than with a `HashSet<String>`: vstd gives a hash set of
  `String` keys no specification that a proof can rely on, and the scan
  lets the contract state the exact result (first copy of each URL, in
  first-seen order).
- The three path shapes are written as grammars over characters; the
  Flickr album's digits are Unicode decimal digits (general category
  `Nd`), the class `\d` stands for in the `regex` crate. `tests/` checks
  the grammars against that crate.
