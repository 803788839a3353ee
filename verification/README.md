# to_rocq

Prints the constraints of an OpenVM AIR circuit as indented text.

- `src/` is the library, with its contracts and proofs:
  - `expr`: symbolic expressions over trace variables, their height and their
    value in the integers;
  - `flat`: flattening of nested sums and products, with the proofs that it
    keeps the value, the leaves and their order, yields the normal form, and
    never grows the tree;
  - `text`: indentation, decimal numerals, lists of lines;
  - `render`: the text of expressions, options and arrays, and the proofs that
    the text of an expression moves right as a block and that regrouping a sum
    or a product prints the same;
  - `readback`: the proof that the printed text determines the flattened tree
    (up to the entries of variables, which are not printed);
  - `builder`: the recorder of constraints (`RocqAirBuilder`), the text of a
    recorded trace, and the proofs that recording only appends;
  - `adapter`: the context a chip core hands its adapter, and its text;
  - `commands`: the `print-circuit` command: what to evaluate and the report.
- `app/` is plain Rust: the clap arguments, the OpenVM `AirBuilder` /
  `InteractionBuilder` implementation over the recorder, the evaluation of the
  OpenVM branch-equality core, and printing.
- `tests/` runs the library on concrete inputs.
