# lava_eval

An in-memory evaluator for `.tlisp` documents, verified with Verus.

- `src/` is the library: the s-expression reader, the evaluators of
  architectures, interfaces, imports and dashboards, the validation of inputs
  and the writer of Grafana JSON. Every function is proved against its
  contract.
- `app/` puts the library on the types of the `lava` suite.
- `tests/` runs the library on concrete sources.

What the library takes from other crates without proof stands behind wrappers
with stated contracts: the maps of `indexmap`, the input validation of
`lava_schema` and the Grafana renderer of `lava_core`.
