# wilayah

Location lookup for Indonesian villages, and the pipeline that builds its
database from the Kemendagri decree (a PDF rendered to text) and the BIG
boundary service.

The project is written in Verus. Its library, under `src/`, holds the logic:
the parsers of the decree's tables, the rules that clean village, district and
island records, the merge of the decree with the boundary data, and the small
decisions of the lookup API (limits, paging, disambiguation). Each public
function states its result in its contract, over spec functions on `Seq<char>`,
and Verus proves the code against it.

- `src/text.rs`: characters, whitespace, words, lines, joining.
- `src/types.rs`: limits, metadata, administrative levels and code prefixes.
- `src/unicode.rs`: the character properties taken from `std`.
- `src/builder/`: the decree parsers (`parse`, `village`, `district`, `notes`,
  `columns`, `lines`, `headers`, `tables`, `islands`, `numbers`), the merge
  plan (`merge`), hashing and the boundary service's paging (`util`), and the
  pipeline's configuration (`mod.rs`).

`app/` is plain Rust around the library: file and network I/O, SQLite, JSON,
and the floating-point geometry (distances, centroids, point in polygon).

`tests/` runs the library on concrete inputs.
