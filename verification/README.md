# faultcalc_core

A short-circuit study engine for one-line diagrams, built around a verified case model.

`src/` is the library, proved with Verus:

- `model.rs`: the case (buses, branches, sources), its construction rules (`add_bus`,
  `add_branch`, `add_source`, `add_utility_source`, `add_transformer`), the defaults
  filled when a case is loaded (`normalise_defaults`) and validation (`validate`).
- `topology.rs`: the positive-, negative- and zero-sequence networks as graphs over the
  buses, and the component of a faulted bus (a breadth-first search proved complete and
  sound with respect to reachability).
- `domain.rs`: the standard voltage table, model warnings, schedule rows, summary counts
  and the voltage groups of buses joined by non-transformer branches.
- `report.rs`: fault kinds, their notes when a sequence network has no source path, and
  CSV fields and records.
- `cli.rs`: command and option parsing, request routing for the static server, base64,
  template filling and response headers.
- `sample.rs`: the starter case.
- `quantity.rs`, `text.rs`, `error.rs`: binary64 quantities held by their encoding (with
  verified sign tests), text helpers, and the error type.

Every quantity in the library is a `Quantity`, the IEEE-754 binary64 encoding of the
value. Arithmetic on those values (per-unit conversions, the complex nodal solution, fault
equations, asymmetry estimates, nearest standard voltage) is done by the callers in
`app/`, which also holds the JSON format, the command-line program and the WebAssembly
exports.

`tests/` exercises the library on concrete cases.
