# CAD Open Layer

A vendor-neutral layer for ASCII DXF drawings: reading and writing DXF,
and extracting architectural semantics (walls, openings, rooms,
dimensions, grids) from it.

## Layout

- `src/` — the verified library (Verus). Numbers are kept as the literal
  text of the file and angles in degrees, so that everything the library
  decides is stated over plain values:
  - `reader`, `parser`, `builders`, `document`: the group-code pair reader,
    the streaming section parser, entity assembly with lenient numbers
    (every lenience recorded as a warning), and the one-shot document parse.
    `parser` proves that the end of the stream is reported exactly once
    (`lemma_end_reported_once`); `block_events` that a block definition
    gives its start, one event per entity and its end, in that order,
    wherever it stands in a stream after the BLOCKS section opens or a
    block ends (`lemma_block_events_in_stream`).
  - `writer`, `blocks`: the DXF emitter and the standard door and window
    blocks with their standard widths.
  - `roundtrip`, `document_roundtrip`: proofs that reading what the emitter
    writes gives back what was written, entity by entity
    (`lemma_entity_round_trip`) and file by file (`lemma_file_round_trip`),
    handles included, with no warning. The conditions: texts without
    surrounding whitespace and numbers written as number literals; a TEXT
    that carries no text style comes back with the default style among its
    extra groups, and from then on a second write and read changes nothing
    (`lemma_second_cycle_changes_nothing`).
  - `classify`, `pairing`, `faces`, `semantic`, `units`, `mcp`: the
    plain-valued rules of extraction (layer and block-name hints, dimension
    texts, greedy line pairing, which splits the lines into pairs and lone
    lines (`lemma_pairing_splits_lines`), the faces of the wall graph), the
    semantic kinds and the equivalence verdict, unit codes, and the
    server's routing.
- `app/` — the program around the library: float geometry and the
  extraction and synthesis algorithms that compute on `f64`, stream I/O,
  the JSON-RPC server over stdio, the WASM entry points and the serde
  models. It converts between float values and the library's literals.
- `tests/` — tests of the library on concrete values.
