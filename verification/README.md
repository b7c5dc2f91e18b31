# rfc_index

A local cache, search index, and reference graph for IETF RFCs.

The library under `src/` is written in Verus: every function carries a
contract over mathematical models (sequences of characters and bytes,
integers), and Verus proves the code against it. It covers what the index
computes:

- `index`: reading `rfc-index.xml` entries (RFCs and BCP/STD/FYI
  sub-series) from the parsed XML tree;
- `errata`: turning published `errata.json` entries into stored errata, and
  filtering them by status;
- `body`: normalising rendered RFC text and finding its numbered sections;
- `refs`: the RFC numbers a body mentions;
- `query`, `facets`: listing filters, their composition, and facet counts;
- `search`: the literal-phrase form of a full-text query;
- `sync`: the decisions of the conditional download of the index and errata;
- `calendar`: civil dates of day counts and UTC timestamps;
- `cli`, `render`: the command line's options and the lines it prints;
- `outside`: the trusted declarations through which the library calls
  `regex`, `roxmltree` and the standard library.

The application under `app/` is the `rfc` command: SQLite storage
(`rusqlite`), HTTP (`reqwest`), JSON decoding (`serde_json`) and argument
parsing (`clap`) around the library.
