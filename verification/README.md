# cellscript

The verified core of the CellScript compiler back end, written in Verus.

- `lifecycle` — checks the state machines that a module's types declare:
  states, transitions and the actions that move between them.
- `edition`, `commitment_contract` — the source editions and the compatibility
  profile they resolve to; recognizing commitment wrappers.
- `ast`, `ir` — the surface syntax tree the lifecycle checker walks, and the
  lowered IR the code generator reads.
- `assembler` — the internal RISC-V assembler: line syntax, instruction
  decoding and encoding (`li` materialization included), section parsing,
  label checks, branch relaxation, machine blocks and their control-flow
  graph, layout orders, the layout plan and its metrics, and the ELF image.
- `codegen` — the generator's emission helpers (stack access, frames,
  operands, call arguments, the constant pool, stack collections), type
  widths and schema layouts, facts read off the IR, backend shape analysis,
  and scalar slot reuse: liveness, interference and greedy slot assignment.

`app/` holds the serde forms of the edition types, which the library's own
types do not carry. `tests/` exercises the library as a user would.

Tables keyed by names (type names, field names, bindings, named variables)
are `names::NameMap`, a vector of name/value pairs with a view as a sequence
of pairs, and the lifecycle's set of consumed names is a `Vec`. With `String`
keys, Verus accepts calls on `HashMap`, `BTreeMap`, `HashSet` and `BTreeSet`
but proves nothing about what they hold, so the contracts could not say what
a lookup returns. Tables keyed by integer ids stay `HashMap`s and `BTreeSet`s.

The frame of a function is described by `codegen::frame_model::frame_model`,
a spec function that lays out the slots phase by phase; the executable
`CodeGenerator::prepare_function_layout` is proved to install exactly that
layout, and to fail exactly when it would not fit `usize`.
