# garbled-snark-verifier (sect233k1 circuits)

Boolean circuits for the binary field GF(2^233) = GF(2)[x]/(x^233 + x^74 + 1)
and for the Koblitz curve xsk233, built gate by gate for garbling, with their
meaning proved in Verus.

A circuit is described by the wire assignments it accepts (`CircuitTrait::sat`).
Every `emit_*` function states, for every accepted assignment, the value of the
wires it returns as a function of the values of its input wires; that it keeps
the earlier gates in front and appends an exact number of new ones; and which
constant wires carry its constant outputs. `CircuitAdapter::eval_gates`
shows that the recorded circuit accepts the assignment it computes from any
input.

Layout of `src/`:

- `builder`: gates, the `CircuitTrait` interface, the recording builder
  `CircuitAdapter`, gate counts and `Template`.
- `gf_spec`: the field operations as spec functions over coefficient sequences.
- `gf_ckt`, `gf_mul_ckt`: field circuits (addition, reduction, squaring,
  multiplication, inversion, trace, half-trace, zero test, decoding).
- `gf_laws`: laws of the field operations and point formulas.
- `curve_spec`, `curve_ckt`: point formulas and their circuits, decoding of
  compressed points, and the addition templates.
- `bigint`: decimal constants through `num_bigint`.

`app/` prints a line when a template is built.
