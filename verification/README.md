# shaw-oc-stats

Usage statistics for OpenCode sessions, as a library verified with Verus and
a thin command around it.

## Layout

- `src/` — the verified library.
  - `records.rs`: message records, usage events, sessions and loaded data.
  - `text.rs`: white space, trimming, words, decimals and padding on characters.
  - `clock.rs`: millisecond instants and calendar days through `chrono`.
  - `queries.rs`: turning one stored message record into a message and an event.
  - `ordering.rs`: code-point order of texts, strict orders of indices.
  - `assemble.rs`: events in time order and one summary per session.
  - `document.rs`: the export format (an array of records or one record).
  - `loading.rs`: loading exported records and database rows.
  - `fuzzy.rs`: scores and match positions from `nucleo-matcher`, display
    widths from `unicode-width`.
  - `search.rs`: filtering and ranking, the search state, match positions
    and ranges, shortening the query.
  - `display.rs`: what the model and provider pages show.
  - `snapshot.rs`: the plain-text usage snapshot.
  - `fetch.rs`: how a failed download is reported.
  - `cli.rs`: the command line's decisions (data source, snapshot options,
    pricing cache update, theme choice).
- `app/` — argument parsing, file, database and network I/O. It loads usage
  data and runs the `cache` and `completions` commands; the interactive
  dashboard and the `snapshot` command need usage analytics (per-model and
  per-provider totals and costs) that this crate does not compute, so after
  loading the data they stop with an error saying so.
- `tests/` — tests of the library.

The functions of `src/` are verified by Verus against their contracts; the
calls into outside crates sit behind a few trusted wrappers whose doc
comments say what their contracts assume.
