//! Framing around the AES-128-CBC bindings: what they are handed and what is made of
//! their replies.
//!
//! The bindings take a block-aligned buffer and its length as four big-endian bytes,
//! and reply with a buffer whose first four bytes are a length prefix ahead of the
//! processed data.

use vstd::prelude::*;
use crate::padding::{
    apply_pkcs7_padding, lemma_unpad_pad, remove_pkcs7_padding, pkcs7_pad, pkcs7_unpad, BLOCK_SIZE,
};

verus! {

/// The four big-endian bytes of `n`.
pub open spec fn be_bytes(n: u32) -> Seq<u8> {
    seq![
        (n / 0x100_0000) as u8,
        (n / 0x1_0000 % 0x100) as u8,
        (n / 0x100 % 0x100) as u8,
        (n % 0x100) as u8,
    ]
}

/// The number that four big-endian bytes stand for.
pub open spec fn be_value(b: Seq<u8>) -> int {
    b[0] * 0x100_0000 + b[1] * 0x1_0000 + b[2] * 0x100 + b[3]
}

/// The length field that the bindings receive for a buffer of `len` bytes: the length
/// reduced to 32 bits.
pub open spec fn length_field(len: nat) -> u32 {
    (len % 0x1_0000_0000) as u32
}

/// What a binding is handed: the data to process and its length field, big-endian.
pub struct CbcRequest {
    pub data: Vec<u8>,
    pub length_be: [u8; 4],
}

/// Encodes `n` as four big-endian bytes.
pub fn encode_be_u32(n: u32) -> (b: [u8; 4])
    ensures
        b@ == be_bytes(n),
        b[0] as int * 0x100_0000 + b[1] as int * 0x1_0000 + b[2] as int * 0x100 + b[3] as int
            == n as int,
{
    proof {
        lemma_be_bytes_digits(n);
    }
    [(n / 0x100_0000) as u8, (n / 0x1_0000 % 0x100) as u8, (n / 0x100 % 0x100) as u8, (n % 0x100) as u8]
}

/// Reads four big-endian bytes as a number.
pub fn decode_be_u32(b: &[u8; 4]) -> (n: u32)
    ensures
        n == be_value(b@),
        n / 0x100_0000 == b[0],
        n / 0x1_0000 % 0x100 == b[1],
        n / 0x100 % 0x100 == b[2],
        n % 0x100 == b[3],
{
    proof {
        lemma_be_value_digits(b@);
    }
    let b0: u32 = b[0] as u32;
    let b1: u32 = b[1] as u32;
    let b2: u32 = b[2] as u32;
    let b3: u32 = b[3] as u32;
    b0 * 0x100_0000 + b1 * 0x1_0000 + b2 * 0x100 + b3
}

/// Decoding undoes encoding.
pub proof fn lemma_decode_encode(n: u32)
    ensures
        be_value(be_bytes(n)) == n,
{
    let q = n / 0x100;
    assert(n == q * 0x100 + n % 0x100);
    let r = q / 0x100;
    assert(q == r * 0x100 + q % 0x100);
    assert(n / 0x1_0000 == r) by (nonlinear_arith)
        requires q == n / 0x100, r == q / 0x100;
    assert(n / 0x100_0000 == r / 0x100) by (nonlinear_arith)
        requires r == n / 0x1_0000;
    assert(r == (r / 0x100) * 0x100 + r % 0x100);
    assert(r / 0x100 < 0x100);
}

/// The length field of a buffer of `len` bytes, big-endian.
pub fn cbc_length_field(len: usize) -> (b: [u8; 4])
    ensures
        b@ == be_bytes(length_field(len as nat)),
        b[0] as int * 0x100_0000 + b[1] as int * 0x1_0000 + b[2] as int * 0x100 + b[3] as int
            == len as int % 0x1_0000_0000,
        len < 0x1_0000_0000 ==> b[0] as int * 0x100_0000 + b[1] as int * 0x1_0000 + b[2] as int
            * 0x100 + b[3] as int == len as int,
{
    proof {
        lemma_length_field_digits(len as nat);
    }
    let wide: u64 = len as u64;
    let n: u32 = (wide % 0x1_0000_0000u64) as u32;
    encode_be_u32(n)
}

/// The request for an encryption: the input with PKCS#7 padding, and its length field.
pub fn prepare_encrypt(input: &[u8]) -> (req: CbcRequest)
    requires
        input@.len() + BLOCK_SIZE <= usize::MAX,
    ensures
        req.data@ == pkcs7_pad(input@),
        req.data@.len() % 16 == 0,
        req.length_be@ == be_bytes(length_field(req.data@.len())),
        req.length_be[0] as int * 0x100_0000 + req.length_be[1] as int * 0x1_0000
            + req.length_be[2] as int * 0x100 + req.length_be[3] as int == req.data@.len()
            % 0x1_0000_0000,
{
    let data = apply_pkcs7_padding(input);
    let length_be = cbc_length_field(data.len());
    CbcRequest { data, length_be }
}

/// The request for a decryption of a whole number of blocks: the input unchanged, and
/// its length field.
pub fn prepare_decrypt(input: &[u8]) -> (req: CbcRequest)
    requires
        input@.len() % 16 == 0,
    ensures
        req.data@ == input@,
        req.length_be@ == be_bytes(length_field(input@.len())),
        req.length_be[0] as int * 0x100_0000 + req.length_be[1] as int * 0x1_0000
            + req.length_be[2] as int * 0x100 + req.length_be[3] as int == input@.len()
            % 0x1_0000_0000,
{
    let data = vstd::slice::slice_to_vec(input);
    let length_be = cbc_length_field(input.len());
    CbcRequest { data, length_be }
}

/// The payload of a reply: everything after its four-byte length prefix.
pub open spec fn reply_payload(reply: Seq<u8>) -> Seq<u8> {
    reply.subrange(4, reply.len() as int)
}

/// The ciphertext carried by an encryption reply.
pub fn finish_encrypt(reply: &[u8]) -> (ciphertext: Vec<u8>)
    requires
        reply@.len() >= 4,
    ensures
        ciphertext@ == reply_payload(reply@),
        ciphertext@.len() == reply@.len() - 4,
        forall|i: int| 0 <= i < ciphertext@.len() ==> #[trigger] ciphertext@[i] == reply@[i + 4],
{
    vstd::slice::slice_to_vec(&reply[4..reply.len()])
}

/// The plaintext carried by a decryption reply, once its padding is removed.
pub fn finish_decrypt(reply: &[u8]) -> (r: Result<Vec<u8>, &'static str>)
    requires
        reply@.len() >= 4,
    ensures
        match r {
            Ok(v) => pkcs7_unpad(reply_payload(reply@)) == Ok::<Seq<u8>, &'static str>(v@),
            Err(e) => pkcs7_unpad(reply_payload(reply@)) == Err::<Seq<u8>, &'static str>(e),
        },
        match r {
            Ok(v) => pkcs7_unpad(reply@.subrange(4, reply@.len() as int)) == Ok::<
                Seq<u8>,
                &'static str,
            >(v@),
            Err(e) => pkcs7_unpad(reply@.subrange(4, reply@.len() as int)) == Err::<
                Seq<u8>,
                &'static str,
            >(e),
        },
{
    remove_pkcs7_padding(&reply[4..reply.len()])
}

/// A decryption reply whose payload is the padded message gives the message back,
/// whatever its length prefix holds.
pub proof fn lemma_decrypt_reply_of_padded(reply: Seq<u8>, m: Seq<u8>)
    requires
        reply.len() >= 4,
        reply_payload(reply) == pkcs7_pad(m),
    ensures
        pkcs7_unpad(reply_payload(reply)) == Ok::<Seq<u8>, &'static str>(m),
{
    lemma_unpad_pad(m);
}

/// Big-endian encoding: the four bytes, read as base-256 digits with the most significant
/// first, give back the number. As each byte is below 256, this fixes every byte.
pub proof fn lemma_be_bytes_digits(n: u32)
    ensures
        be_bytes(n).len() == 4,
        be_bytes(n)[0] as int * 0x100_0000 + be_bytes(n)[1] as int * 0x1_0000 + be_bytes(n)[2] as int
            * 0x100 + be_bytes(n)[3] as int == n as int,
{
    let x = n as int;
    let q = x / 0x100;
    let r = q / 0x100;
    let t = r / 0x100;
    assert(x == q * 0x100 + x % 0x100);
    assert(q == r * 0x100 + q % 0x100);
    assert(r == t * 0x100 + r % 0x100);
    assert(x / 0x1_0000 == r) by (nonlinear_arith)
        requires
            q == x / 0x100,
            r == q / 0x100,
            x >= 0,
    ;
    assert(x / 0x100_0000 == t) by (nonlinear_arith)
        requires
            r == x / 0x1_0000,
            t == r / 0x100,
            x >= 0,
    ;
    assert(t < 0x100);
    assert(x == t * 0x100_0000 + (r % 0x100) * 0x1_0000 + (q % 0x100) * 0x100 + x % 0x100)
        by (nonlinear_arith)
        requires
            x == q * 0x100 + x % 0x100,
            q == r * 0x100 + q % 0x100,
            r == t * 0x100 + r % 0x100,
    ;
}

/// Reading four bytes big-endian: the first byte is the value's most significant base-256
/// digit, and so on down to the last, which is the least significant.
pub proof fn lemma_be_value_digits(b: Seq<u8>)
    requires
        b.len() == 4,
    ensures
        0 <= be_value(b) < 0x1_0000_0000,
        be_value(b) / 0x100_0000 == b[0],
        be_value(b) / 0x1_0000 % 0x100 == b[1],
        be_value(b) / 0x100 % 0x100 == b[2],
        be_value(b) % 0x100 == b[3],
{
    let b0 = b[0] as int;
    let b1 = b[1] as int;
    let b2 = b[2] as int;
    let b3 = b[3] as int;
    let v = b0 * 0x100_0000 + b1 * 0x1_0000 + b2 * 0x100 + b3;
    assert(v == be_value(b));
    assert(v % 0x100 == b3 && v / 0x100 == b0 * 0x1_0000 + b1 * 0x100 + b2) by (nonlinear_arith)
        requires
            v == b0 * 0x100_0000 + b1 * 0x1_0000 + b2 * 0x100 + b3,
            0 <= b0 < 0x100,
            0 <= b1 < 0x100,
            0 <= b2 < 0x100,
            0 <= b3 < 0x100,
    ;
    let w = v / 0x100;
    assert(w % 0x100 == b2 && w / 0x100 == b0 * 0x100 + b1) by (nonlinear_arith)
        requires
            w == b0 * 0x1_0000 + b1 * 0x100 + b2,
            0 <= b0 < 0x100,
            0 <= b1 < 0x100,
            0 <= b2 < 0x100,
    ;
    let u = w / 0x100;
    assert(u % 0x100 == b1 && u / 0x100 == b0) by (nonlinear_arith)
        requires
            u == b0 * 0x100 + b1,
            0 <= b0 < 0x100,
            0 <= b1 < 0x100,
    ;
    assert(v / 0x1_0000 == u) by (nonlinear_arith)
        requires
            w == v / 0x100,
            u == w / 0x100,
            v >= 0,
    ;
    assert(v / 0x100_0000 == b0) by (nonlinear_arith)
        requires
            u == v / 0x1_0000,
            b0 == u / 0x100,
            v >= 0,
    ;
}

/// The length field of a buffer of `len` bytes holds the length reduced to 32 bits, as
/// base-256 digits with the most significant first; below 2^32 it holds the length itself.
pub proof fn lemma_length_field_digits(len: nat)
    ensures
        be_bytes(length_field(len)).len() == 4,
        be_bytes(length_field(len))[0] as int * 0x100_0000 + be_bytes(length_field(len))[1] as int
            * 0x1_0000 + be_bytes(length_field(len))[2] as int * 0x100
            + be_bytes(length_field(len))[3] as int == len % 0x1_0000_0000,
        len < 0x1_0000_0000 ==> be_bytes(length_field(len))[0] as int * 0x100_0000
            + be_bytes(length_field(len))[1] as int * 0x1_0000 + be_bytes(length_field(len))[2] as int
            * 0x100 + be_bytes(length_field(len))[3] as int == len,
{
    lemma_be_bytes_digits(length_field(len));
}

/// A reply that is a four-byte prefix followed by a body has that body as its payload.
pub proof fn lemma_reply_payload(prefix: Seq<u8>, body: Seq<u8>)
    requires
        prefix.len() == 4,
    ensures
        reply_payload(prefix + body) == body,
{
    assert(reply_payload(prefix + body) =~= body);
}

/// The payload of a reply is everything after its first four bytes, byte for byte.
pub proof fn lemma_reply_payload_bytes(reply: Seq<u8>)
    requires
        reply.len() >= 4,
    ensures
        reply_payload(reply).len() == reply.len() - 4,
        forall|i: int|
            0 <= i < reply.len() - 4 ==> #[trigger] reply_payload(reply)[i] == reply[i + 4],
{
}

/// A decryption reply made of any four-byte prefix followed by the padded message gives
/// the message back.
pub proof fn lemma_decrypt_reply_of_prefixed(prefix: Seq<u8>, m: Seq<u8>)
    requires
        prefix.len() == 4,
    ensures
        pkcs7_unpad(reply_payload(prefix + pkcs7_pad(m))) == Ok::<Seq<u8>, &'static str>(m),
{
    lemma_reply_payload(prefix, pkcs7_pad(m));
    lemma_unpad_pad(m);
}

} // verus!
