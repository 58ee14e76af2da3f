# mental_poker

A mental poker protocol over ElGamal ciphertexts on secp256k1, written in
Verus: every function of `src/` carries a contract that Verus proves.

The curve arithmetic, serialization and Fiat-Shamir transcripts come from
arkworks (`ark-ec`, `ark-ff`, `ark-secp256k1`, `ark-serialize`,
`ark-transcript`); the library reaches them through small trusted wrappers
whose contracts name what each call returns.

## Layout

- `src/cards.rs`: the classic 52 card deck and the numbering of its cards.
- `src/group.rs`, `src/transcript.rs`: points and scalars as plain values,
  and the trusted wrappers around the curve library and transcripts.  Every
  `Point` and `Scalar` is valid (a type invariant): its encoding decodes
  back to it.  The arithmetic wrappers state the group laws of the curve for
  the points they return (`group_element`), and the lemmas of `group.rs`
  hand them out one at a time to the protocol's correctness laws
  (decryption with every reveal token, completeness of the proofs,
  remasking, the aggregate key after removing or reordering players).
- `src/setup.rs`: shuffle sizing (`mid_factor`) and the game parameters.
- `src/chaum_pedersen.rs`, `src/proofs.rs`: Chaum-Pedersen proofs of
  discrete logarithm equality and Schnorr identification.
- `src/keys.rs`: player keys, hellos and the aggregation of public keys.
- `src/masking.rs`, `src/remasking.rs`: masking and remasking of cards, with
  their proofs, and deterministic masks.
- `src/reveals.rs`: reveal tokens, unmasking and the accumulation of reveals.
- `src/shuffle.rs`, `src/sorting.rs`, `src/deck.rs`: permutations, the
  accumulation of shuffles, sorted decks and the orders they rely on.
- `src/play.rs`: the byte-level interface of a game.
- `tests/`: the protocol's scenarios and concrete checks of the contracts.
- `app/`: error types with `Display`, and writing decks as Rust code.
