# AfroLink

The core of a settlement network for African payments, written in Rust and verified with
Verus. Every function of the library carries a contract; the promises that span functions
are public proof functions whose names begin with `law_`.

## Layout

| Module | What it holds |
|---|---|
| `primitives` | The canonical codec, checked amounts, denominations, country codes, identifiers |
| `crypto` | Domain-separated BLAKE3, Ed25519 keys, bech32m addresses, RFC 6962 Merkle trees |
| `state` | The sparse Merkle tree, membership and absence proofs, the node store, typed records |
| `types` | Accounts and their signing authorities, savings groups, transactions |
| `alias`, `pay` | Usernames and contact commitments; payment references and `afri:` requests |
| `bank`, `staking` | Balances and supply; bonds, unbonding, slashing, the active set |
| `consensus` | Validators, votes, commits, evidence |
| `chain`, `light`, `rpc`, `chainstore` | Blocks, light clients, proof-carrying queries, what a node keeps |
| `witness` | Append-only logs, signed heads, checkpoints |

`app/` is the ordinary Rust around the library: a `redb` database for blocks and commits,
and the view that serves queries from it. `tests/` runs the library against the real
cryptography.

## What is trusted

The contracts of the few functions that call into `blake3`, `ed25519-dalek`, `bech32` and
the standard library are believed without proof; each stands beside its call in `crypto`,
`primitives::text` or `state::smt`, with a comment that says what is claimed. Digests,
keys and signatures are named functions of their inputs. That a hash has no collisions is
nowhere assumed: a law that needs it asks, in its own `requires`, that the values hashed in
the case at hand do not clash (`crypto::hash::clash_free`).
