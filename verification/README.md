# rusty_nbuddies

A gravitational N-body code (direct summation or a Barnes-Hut style tree built
with Morton keys), split into a verified library and a program around it.

- `src/` is the verified library (Verus):
  - `morton.rs`: spreading and interleaving the bits of grid coordinates into
    30-bit Morton keys, and the fact that a key identifies its grid cell.
  - `prefix.rs`: common-prefix lengths of 32-bit keys and the two facts about
    sorted keys that the tree construction rests on.
  - `radix.rs`: the parallel binary radix tree construction over sorted keys
    (range and split of every internal node, their nesting, linking the nodes,
    and sorting items by key), with its laws.
  - `settings.rs`: reading the initial-conditions type and the force method
    from the names in the parameters file.
- `tests/` runs the library on concrete values.
- `app/` is the program: parameter-file handling, the floating-point physics
  (forces, time stepping, Eddington inversion, sampling), checkpoints and
  plots. It calls the library for Morton keys, tree construction and settings.
