# surface_saver_rust

A verified library for inventories of items kept as JSON files, and the
`surface-saver` tool around it.

- `src/` is the library, checked by Verus:
  - `text.rs`: character views, case folding, infix search, decimal
    rendering, joining, and the name order.
  - `sorting.rs`: the stable sort by name, with its uniqueness.
  - `search.rs`: items, search options, keyword matching, search results and
    their report.
  - `consolidate.rs`: which files are merged, merging one directory, and the
    tally of a run.
  - `json_schema.rs`: JSON documents and compiled schemas (serde_json and
    jsonschema).
  - `validator.rs`: the inventory schema and the verdict on a file.
  - `mcp.rs`: the tool server's requests, submission checks and answers.
  - `lib.rs`: the commands and what the tool prints for them.
- `app/` walks directories, reads and writes files, parses the command line
  and runs the tool server; it hands the library plain values.
- `tests/` runs the library on concrete values.
