# mindbase (verified core)

The logic of mindbase's allegations, ground-symbol search and MBQL syntax, verified with Verus.

- `src/ids.rs` — allegation, agent and artifact ids; their byte order (`bytes_value`) and a
  proved lexicographic comparison.
- `src/symbol.rs` — atoms, symbols (strictly ascending runs of atoms), analogies, concepts.
- `src/sorted.rs` — walks over sorted runs: `intersect_symbols`, `SidedMerge`,
  `SortedIntersect`, with the laws that a merge stays sorted and keeps both runs, and that an
  intersection yields exactly the shared atoms in order.
- `src/allegation.rs` — allegations and their bodies.
- `src/ground.rs` — the decisions of the ground-symbol search: the scan range for an artifact,
  the union of the grounding agents' index entries, the analogies that match a pair, which
  decision a node of the statement tree goes to, and what to do with artifacts, pairs and
  symbol variables once the store has answered.
- `src/mbql/` — the MBQL syntax tree, its text (`write`, specified by `render`), the parse
  tree it is read from (`parse`, specified by `accepts` and `parsed_from`), the canonical
  spelling of a parse tree with the law that writing what a tree reads as gives that spelling
  back (`spelling.rs`), the quoting of strings (`quoting.rs`), and its errors.
- `src/wrappers.rs` — the calls into base64, rusty_ulid and inverted-index-util, each with the
  contract the proofs rely on.
- `app/` — what stays outside the proofs: writing to I/O streams, converting pest trees, and
  the serde forms of allegations.
