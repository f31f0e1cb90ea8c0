# baml_engine

Values, types and the deserialization-side rules of the BAML engine, written
in Verus with their contracts proved.

- `src/value.rs`, `describe.rs`, `iter.rs`, `zip.rs`, `serialize.rs`: plain
  values and values with metadata, their type names, depth-first walk,
  node-by-node pairing and JSON form.
- `src/equality.rs`: `==` on maps and values (entry order ignored, floats
  compared as IEEE numbers).
- `src/map.rs`, `order.rs`, `strings.rs`, `json.rs`, `media.rs`: the
  insertion-ordered map, key order and sorting, string helpers, JSON
  documents, media values.
- `src/field_type.rs`, `constraint.rs`, `deserializer.rs`, `streaming.rs`,
  `response.rs`: field types and their builders, constraint checks, default
  values, completion states and streaming checks.
- `src/ir.rs`, `schema.rs`, `python.rs`: the intermediate representation's
  types, their JSON schema, text and Python rendering, and the generated
  client's functions.
- `src/tracing.rs`: the tracer's decisions and spans.
- `src/laws.rs`: properties that span several operations.
- `app/lib.rs`: serde and `Display` for plain values, `serde_json`
  conversions, and the tracing edge (span parameters, logged event ids).

The string-keyed, insertion-ordered map of the values is this crate's own
`BamlMap` (a vector of pairs with distinct keys), with its own verified
insertion and sorting by key, in place of `indexmap::IndexMap`: the value
types contain maps of themselves, and such a recursive type cannot be built
through a collection whose contents the verifier does not see.
