//! Verified byte-level logic around the AES-128-CBC and BN254 bindings:
//! PKCS#7 padding, the framing of requests and replies, and field-element buffers.

pub mod padding;
pub mod cbc;
pub mod bn254;
