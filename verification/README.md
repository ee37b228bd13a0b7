# pls_bitcoin_lib

Multisig contracts for the Private Law Society protocol, as a taproot output:
the parts can spend together, or any one part with a quorum of arbitrators.
Each way of spending is a tapscript leaf; the leaves form a Huffman tree in
which the parts' agreement weighs most.

The library is written in Verus and its functions carry proved contracts.

- `src/utils.rs`: fixed-size combinations, with proofs that they are listed
  once each, completely, in lexicographic order, and that there are
  `C(n, k)` of them.
- `src/keys.rs`: secp256k1 public keys and x-only keys, held as their
  serializations.
- `src/script.rs`: the leaf script that needs a signature from every key of a
  combination, built byte for byte.
- `src/taproot.rs`: Huffman script trees, control blocks and pay-to-taproot
  addresses.
- `src/transaction.rs`: transactions and PSBTs as plain values.
- `src/multisig.rs`: the multisig itself and the PSBT that starts a spend.
- `app/lib.rs`: conversions to and from the `bitcoin` crate's types.

Key parsing, tree hashing and address encoding are done by the `bitcoin` and
`secp256k1` crates; their results are named in the contracts.
