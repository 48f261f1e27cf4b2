# emit (verified core)

The verified core of the Lisette-to-Go emitter, written in Verus. Every
function under `src/` carries a contract that Verus proves, except two small
trusted items that call std and whose contracts Verus takes as given:
`text::push_char` (`String::push`) and `go_type::is_alphanumeric`
(`char::is_alphanumeric`, with its result named `unicode_alphanumeric`).

- `checks`, `tree`, `tree_emit`, `flat_cases`: access paths, pattern checks,
  the decision trees that `match` compiles to, the tree-only decisions of
  turning a tree into Go `switch` and `if` statements, and the flattening of a
  guarded tree into a conditional `switch`.
- `lowered`, `render`: the lowered statement IR and its rendering to Go text.
- `values`, `staging`, `placement`: planned Go values with their evaluation
  facts, left-to-right sequencing of sibling values, and placement rewrites.
- `format_strings`, `binary_ops`, `slicing`, `operands`, `struct_calls`,
  `fused`, `arm_shapes`, `top_items`, `imports`: planning interpolated strings, binary operators, range
  slices, leaf operands and member access, struct constructions, fused
  matches on a Go call's outcome (and the arm shapes that allow them),
  top-level items and the import block, from what their parts already
  planned.
- `names`, `packages`, `go_type`, `prelude_types`, `bindings`: Go naming
  rules, required packages, and Go type texts.
- `literals`, `access`, `utils`, `text`: literal spellings and text helpers.
- `output`: assembling an emitted file.

`app/` holds what runs outside the proofs: calling `gofmt`.
