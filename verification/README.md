# solen_consensus

A consensus engine for a proof-of-stake chain, written and verified in Verus:
round-robin proposers with backups, a quorum of more than two thirds of the
active stake, fork choice by votes that may change, checkpoints at epoch
boundaries, slashing evidence, and in-place repair and rollback of the state.

The engine decides; the node around it executes blocks, gossips and keeps time.
Where a decision needs a block executed, the engine hands out a step and is told
the outcome. So every rule stands in `src/` as a function from state and event to
next state and action, with a contract over a mathematical state.

- `src/` holds the library. `engine` has the state and its queries; `accept`,
  `fork_choice`, `finality`, `commit`, `produce`, `sync`, `epoch` and `recovery`
  have its operations; `validator`, `checkpoint`, `journal`, `slashing`,
  `intents`, `rewards`, `ledger` and `proposer` have the rules they are made of; `codec`
  and `crypto` have what is hashed, signed and stored; `store` is the interface
  to the state store, and `memory_store` one that lives in memory. What holds of
  the engine as a whole is stated in `laws`, `epoch_laws` and `header_laws`, and
  beside the definitions it is about.
- `tests/` runs the library.
- `app/` is the node: services, encodings, events and the production loop.
