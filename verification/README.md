# spartan-parallel

Succinct proofs that a program was executed. A program is a set of blocks, each
a system of rank-one constraints; a proof ties the executions of the blocks, the
order in which they ran, their memory accesses, and the inputs and outputs of the
program together.

- `src/` is the library, in Verus. Scalars and group elements come from
  `curve25519-dalek`, transcripts from `merlin`, hashes from `sha3`; every call
  into these stands behind a small function whose contract says what it gives.
- `scalar`, `group`, `transcript` and `random` are those boundaries. `vectors`,
  `math`, `dense_mlpoly`, `unipoly`, `sparse` and `tables` hold the algebra.
- `commitments`, `bullet`, `nizk`, `poly_eval`, `sigma` and `sumcheck` are the
  protocols that the proofs are made of.
- `r1csinstance`, `r1csproof` and `sparse_mlpoly` are about constraints: their
  instances, a proof that blocks and their execution satisfy them, and
  commitments to them.
- `snark` proves and verifies a program. `statement`, `witness`, `prover` and
  `parts` are the prover's side, `snark_verify` is the verifier's, `io_proofs`
  covers inputs and outputs. The proof that one part is satisfied, and that its
  matrices have the values that are claimed, is handed in as a function.
- The modules whose names end in `_laws` state and prove what holds of the
  library as a whole: true values and honest executions are accepted, sum-checks
  keep their claims, products of rows do not depend on the order.
- `app/` turns proofs into bytes and back.
