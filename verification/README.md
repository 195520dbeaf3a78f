# hash_join_probe

The probe side of a hash join that keeps every probe row: the left join, the left join of a scalar
subquery, and the probe phase of the full outer join, each with or without conditions beyond the
equality of the keys.

A probe is a state machine. It says what it needs done next (look a key up, see whether the query was
interrupted, make a block of columns, evaluate the other conditions, filter a block), and is told the
outcome. It decides which rows go into which block, which probe rows have no match, which build rows
are flagged as matched, and which error ends the query.

- `src/left_join.rs`, `src/left_join_conjunct.rs`: the two probes, without and with other conditions.
- `src/left_join_laws.rs`, `src/left_join_conjunct_laws.rs`: what is proved of every run of a probe,
  above all that its result is the left join.
- `src/block.rs`: the description of a block, and of the columns of each of its sides.
- `src/shape.rs`: how the rows of a result are spread over its blocks.
- `src/row_state.rs`, `src/scan_map.rs`: the pair counts of the probe rows, and the flags of the build
  rows.
- `src/rows.rs`, `src/event.rs`, `src/join.rs`: the rows of a join, what a probe is told, and what it
  is given.
- `src/bitmap.rs`: validity bitmaps, which are those of `arrow2`.
- `app/`: a driver that runs the probes against a hash table and an engine for columns.
