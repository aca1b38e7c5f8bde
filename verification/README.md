# uzwatch

Collectors for three Uzbek marketplaces (birbir.uz, olx.uz, uzum.uz) that
write new offers and products as JSON lines and remember a high-water mark
between runs.

- `src/` is the verified library: token and cookie parsing, base64 and URL
  decoding (with a proved base64 round trip), the order of token sources,
  feed paging, the olx category crawl, the uzum scope discovery and
  per-scope collection, the fetch retry policy and the high-water-mark
  bookkeeping, each with a contract proved by Verus. Public proof functions
  state the laws that hold across calls (the mark never goes down, a second
  poll writes nothing, the olx initial crawl writes each id at most once,
  requests stay inside the API's offset window).
- `app/` is the program around it: argument dispatch, HTTP, files, locks,
  signals, logging and sleeping. It hands the library plain values and acts
  on what comes back.
- `tests/` runs the library on concrete inputs.
