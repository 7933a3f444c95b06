# zk_credentials

Selective disclosure of credential attributes with Groth16 proofs over BN254.
A credential is a Poseidon commitment to sixteen attributes; a holder shows some
of them, proves statements about the others, and a verifier checks one proof.

`src/` is a Verus library. Every function in it is verified against a contract
over mathematical models: field elements are integers below the modulus, circuits
are sequences of gates with an assignment, texts are sequences of characters.
Calls into the arkworks, SHA-2, base64 and random-number crates stand behind
small trusted declarations, each with a comment on what is taken on trust.

- `field`, `modulus`, `primes`, `range`, `order`: field arithmetic and its facts
- `permutation`, `bijection`, `poseidon`, `hashing`, `walkthrough`: the hash
- `gates`, `gadgets`, `comparison`, `membership`, `opening`, `rules`,
  `disclosure`: circuits and what their satisfaction means
- `groth16`: keys, proving and verifying
- `w3c`: verifiable credentials, their issuer and their verifier
- `biometric`: a suite with per-attribute predicates, time windows and a cache
- `policy`: policies, Merkle-backed revocation and proof bundles
- `integrity`: blinding by attribute index and the credential text

`app/` is the command-line program around the library: files, JSON, threads and
the trusted setup. `tests/` runs the library with the real crates.
