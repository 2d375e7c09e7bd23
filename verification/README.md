# moonglass_core

Consensus-layer core logic for an Ethereum beacon node, written in Verus:
executable Rust whose behaviour is stated in `requires`/`ensures` contracts
and proved.

## Layout

- `src/ssz/` — SSZ encoding, decoding and merkleization, with the
  encoding/decoding and root contracts every container builds on.
- `src/containers/` — the consensus data objects, their SSZ codecs, the
  validator registry and committee shuffling, networking and custody rules,
  data-availability sidecars and the extended blob matrix.
- `src/crypto/bls.rs` — BLS signature checks over `ark-bls12-381`.
- `src/crypto/kzg/` — the scalar field, polynomials and transforms, cell
  computation and recovery, cell proofs, batch verification of cell proofs,
  and the trusted-setup parser.
- `src/fork_choice/` — the fork-choice store: creation from an anchor, block
  import, clock, timeliness and proposer boost, checkpoints and the
  pulled-up tip, vote recording, block-tree filtering, weights, head
  selection and proposer-head decisions.
- `tests/` — tests of the library on concrete values.

Calls into `ark-*` and `sha2` go through small trusted wrappers whose doc
comments say what their contracts claim of the outside code.
