# onnx2webnn

Lowers ONNX models to WebNN graphs. The library under `src/` decides what the
graph looks like and is verified with Verus; `app/` reads files, talks to the
network and performs the decided steps with rustnn.

A node is lowered to *steps* (`builder::BuilderOp`) that an `OnnxBuilder`
records. Every handler's contract says exactly which steps it appends, and every
error with the inputs on which it comes. `plans` proves that the steps read only
operands that earlier steps produce.

| Path | Purpose |
|------|---------|
| `src/convert.rs` | checks of a model, the state while nodes are lowered, constants |
| `src/progress.rs` | the order of the work on a model |
| `src/lower.rs` | inputs, initializers and declared shapes |
| `src/ops/` | handlers: attention, einsum, matrix products, mixture of experts, recurrent layers |
| `src/registry.rs` | which handler lowers which operator |
| `src/inline_if.rs`, `src/pin.rs`, `src/prune.rs` | pinned inputs, inlined branches, dead code |
| `src/sources.rs` | where the names that nodes read come from |
| `src/external.rs`, `src/tensors.rs` | tensor payloads |
| `src/overrides.rs`, `src/options.rs` | values for symbolic dimensions, options |
| `src/probe.rs`, `src/hub.rs` | proposals for manifest entries, Hub listings |
| `src/plans.rs`, `src/builder.rs` | steps and their well-formedness |
| `src/protos.rs`, `src/types.rs`, `src/names.rs`, `src/context.rs` | data |
| `src/bytes.rs`, `src/floats.rs`, `src/text.rs`, `src/json.rs`, `src/arith.rs` | encodings and arithmetic |
| `app/` | files, protobuf decoding, HTTP, floating point, rustnn |

Supported ONNX opset range: 1–26. Floating-point numbers are carried as bit
patterns; arithmetic on them is left to `app/perform.rs`.

Functions whose arithmetic can leave its range have a `requires` for that and a
companion that tells whether it holds (`in_range`, `node_fits`, `pins_fit`,
`proposal_fits`, `zero_fill_step`).
