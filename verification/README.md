# air_snark

A verified core for proving single AIRs (arithmetic intermediate
representations) over the KoalaBear field, written in Verus.

- `field`, `prime_field`, `bits`, `words`, `degree`: the rings that constraints are
  evaluated in, the KoalaBear field, prime fields in general, bits and words in
  them, and degree bounds. What the constraints mean is proved over every prime
  field with room for the limbs that they handle.
- `air`: what the proof system asks of an AIR, and the rows that constraints
  read.
- `keccak`, `keccak_air`: the Keccak-f permutation on bits, and its AIR, with a
  variant that shifts only the columns it reads. `keccak_laws` and
  `keccak_trace_laws` prove that the constraints vanish exactly on the rounds of
  Keccak-f, and that a satisfied run of rows computes the permutation.
- `blake3`, `blake3_air`, `blake3_eval`, `blake3_table`, `blake3_execution`,
  `blake3_trace`: the BLAKE3 compression of one block, its table, its calls and
  its rows. `blake3_gadgets`, `blake3_gate_laws`, `blake3_laws`, `blake3_row_laws`
  and `blake3_shape_laws` prove that a row can be satisfied exactly where it maps
  its input to its hash, that generated columns are satisfied at every
  multiplicity, and that the declared sizes and degrees are right.
- `whir`, `snark`, `snark_setup`, `snark_run`, `preprocessing`: the layout and
  configuration of a proof, the checks of prover and verifier, the order of the
  transcript on both sides, and the stored preprocessing artifact.

`app/` drives the core: it runs the transcript against a proof system, calls
against a memory, and gives the artifact its serde form. `tests/` runs the core
on concrete traces, hashes, transcripts and bytes.
