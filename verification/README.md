# dnf

Building, parsing and evaluating DNF (Disjunctive Normal Form) queries —
OR-ed conjunctions of `field operator value` conditions:

```
(age > 18 AND country == "US") OR (premium == true)
```

The library is written in Verus: every function carries a `requires` /
`ensures` contract over a mathematical model of its data, and Verus proves
each body against it.

## Layout

- `src/` — the verified library
  - `value.rs`, `compare.rs`, `value_cmp.rs`, `convert.rs` — query values,
    their rendering, equality and ordering, and conversions into values
  - `operator.rs` — operators and how each holds on text, integer, boolean
    and collection fields
  - `field.rs` — evaluation of struct fields (`DnfField`), and `FieldMap`,
    a map field with string keys
  - `query.rs` — conditions, conjunctions and queries, their evaluation,
    validation, introspection and rendering
  - `builder.rs` — the fluent `QueryBuilder` / `ConjunctionBuilder`
  - `plan.rs` — what an evaluation derived for a struct does with each of
    its fields (by the field's type and `dnf` attributes), and the reading
    of paths into collections and maps of nested structs
  - `custom.rs` — custom operators and their registry
  - `token.rs`, `grammar.rs`, `parser.rs`, `numeric.rs` — the query-text
    lexer, the grammar as a specification, and the parser proved against it
  - `types.rs`, `schema.rs` — field metadata and the classification of field
    types
  - `error.rs`, `text.rs` — errors with their messages, and text helpers
  - `laws.rs` — properties relating several operations, proved once for all
    inputs
  - `roundtrip.rs` — that a written query parses back as itself (or as an
    equal query), for the queries whose written form the lexer and the
    parser can read
- `tests/` — executable tests of the library
- `app/` — unverified companion code: serde-enabled copies of the query
  types, an error type implementing `std::error::Error`, and evaluation of
  floating-point fields

## Floating point

The library holds no floating-point values: `Value` has no float variants,
and the query parser refuses a number with a fractional part (or an integer
too large for `u64`) with a type mismatch. Floating-point struct fields are
evaluated by `app/float.rs`, against integer and text query values.
