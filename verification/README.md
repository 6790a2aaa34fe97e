# tiny_l1

A minimal layer-1 blockchain, written in Verus and verified:

- `src/state.rs`, `src/account.rs`, `src/transaction.rs`: account-based ledger; a transfer
  is refused unless the sender exists, carries the sender's nonce and holds the value;
  an applied transfer conserves the total supply and cannot be replayed.
- `src/block.rs`, `src/merkle.rs`: blocks that commit to their parent's hash, the state
  root and the Merkle root of their transactions; inclusion proofs lead to the root.
- `src/consensus.rs`: a round-based BFT engine (Propose, PreVote, PreCommit, Commit)
  that commits only with a quorum of validators' votes.
- `src/vm.rs`: a stack machine with gas metering.
- `src/simulation.rs`: the simulations that the command-line tool runs.
- `src/crypto.rs`, `src/codec.rs`: SHA3-256 (`sha3`) and the record encodings (`bincode`).
- `app/main.rs`: the command-line tool (`clap`), which reads the clock and prints.
