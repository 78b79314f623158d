# recursion

Verified preprocessing, layout and witness-materialization logic for the
universal recursive verifier of a RISC-V zkVM built on Circle STARKs. The
library fixes, from trusted verifier plans and fixed profiles, every table
that the recursive verifier's AIR reads, and checks the witness values that
fill them. Every function in `src/` is verified with Verus against its
contract; the public proof functions state the laws the tables obey.

## Layout

- `src/kernel.rs`, `src/m31.rs`, `src/domain.rs`: verifier steps and plans,
  canonical field words, power-of-two domains.
- `src/transcript_kernel.rs`: the transcript sponge over a pluggable
  permutation backend, with a record of every permutation it requests.
- `src/transcript_trace.rs`, `src/transcript_layout.rs`,
  `src/transcript_program.rs`, `src/transcript_binding.rs`: the fixed
  transcript schedule of a plan, the one driver that runs a plan over a
  proof's wire words on any backend, its Poseidon call rows, and their
  binding to recorded transcripts.
- `src/verifier_randomness.rs`, `src/randomness_values.rs`: the trusted draw
  rows and the draws recorded for them.
- `src/composition_*.rs`, `src/recursion_input.rs`, `src/circuit.rs`: the
  composition control rows, the ownership of every composition-circuit input
  (VM lane and recursion lanes) with circuit anchors, their column values,
  lowering checks and value materialization.
- `src/public_claim.rs`, `src/claim_hash.rs`, `src/public_logup_*.rs`: the
  canonical VM public claim, its hash schedule, and the public LogUp inputs.
- `src/pcs_layout.rs`, `src/sample_layout.rs`, `src/trace_leaf.rs`,
  `src/trace_merkle.rs`, `src/leaf_order.rs`, `src/trace_leaf_sponge.rs`:
  PCS geometry, sample layout, the trace-leaf schedule and the leaf sponge
  that records each opening's rows, asking its caller for each query route
  and permutation.
- `src/trace_path.rs`: the check that every leaf claim's sibling path climbs
  to its tree's committed root, asking its caller to combine each level.
- `tests/`: tests on concrete values for each module.
- `app/lib.rs`: human-readable messages for the library's errors.
