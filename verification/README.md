# lib

Verified byte-level logic for Barretenberg's AES-128-CBC and BN254 square-root bindings.

- `src/padding.rs`: PKCS#7 padding and unpadding, with the laws that unpadding undoes
  padding and that padding undoes unpadding on block-aligned buffers.
- `src/cbc.rs`: the requests handed to the CBC bindings (padded data, big-endian length
  field) and what is made of their length-prefixed replies.
- `src/bn254.rs`: field elements as 32-byte buffers and the reply of the square-root binding.
- `app/`: the `unsafe` entry points that call the C++ library through its C interface.
