# rust_pipeline

A phone-specification pipeline: it scrapes vendor product pages into
specification records, names and renders them, and plans the uploads,
ingestion pushes, bucket cleanups, image variants and transcriptions around
them.

The library in `src/` is written in Verus and verified; every public function
states what it returns in its `ensures`, over the views of the records
(`SpecModel`, `CamerasModel`, `Map` for the raw key/value map, `Seq<char>` for
text).

- `text`: trimming, splitting, joining, searching and removing text, with
  exact specifications; `char::is_whitespace`, `char::is_numeric` and
  `str::to_lowercase` behind small trusted wrappers.
- `specs`, `rawmap`: the record types; `RawMap` keeps its entries in key
  order, each key once (a type invariant).
- `html`: queries on parsed pages, answered by the `scraper` crate behind
  trusted wrappers whose results are named (`html_text_nodes`, ...).
- `sites`, `camera`, `oppo`, `xiaomi`, `samsung`, `scrub`: the page parsers.
  Each vendor has an `assemble` function that builds the record from what the
  page shows, and a `parse` function that asks the page and calls it; `scrub`
  holds the generic parser, the choice of parser by URL host, URL lists and
  output names.
- `slug`, `markdown`, `bucket`, `ingest`, `cleaner`, `optimizer`,
  `transcribe`: slugs, Markdown, S3 keys and URLs, which files are pushed,
  which objects expire, image variant names, candidate quotes and the
  transcription decisions.

`app/` is the command-line program around the library: HTTP, files, S3,
external tools, JSON output, and the floating-point image and audio work.
`tests/` runs the library on concrete pages and values.
