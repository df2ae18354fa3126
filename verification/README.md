# feistel_net

Feistel network cipher constructions, verified with Verus.

- `src/feistel.rs` — the Feistel network as a spec function, its round-trip
  laws, and the balanced and unbalanced ciphers on 64-bit blocks.
- `src/key_schedule.rs` — round-key derivation from a master key.
- `src/sbox.rs` — S-boxes (table plus inverse), the AES S-box, seeded
  shuffles, and the nonlinearity measure.
- `src/walsh.rs` — the Walsh spectrum behind the nonlinearity and the proof
  that the fast butterfly transform computes it.
- `src/round.rs` — the round-function trait, the S-box round, avalanche counts.
- `src/permutation.rs` — bit-position permutations and their inverses.
- `src/bits.rs`, `src/counting.rs` — bit-level and counting lemmas.
- `app/` — the floating-point avalanche score and a panicking S-box constructor.
