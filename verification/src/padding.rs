//! PKCS#7 padding with a block size of sixteen bytes.

use vstd::prelude::*;

verus! {

/// The AES block size in bytes.
pub const BLOCK_SIZE: usize = 16;

/// Number of padding bytes appended to a message of `n` bytes: always in `1..=16`.
pub open spec fn pad_len(n: nat) -> nat {
    (16 - n % 16) as nat
}

/// PKCS#7 padding of `s`: the message followed by `pad_len(|s|)` copies of that length.
pub open spec fn pkcs7_pad(s: Seq<u8>) -> Seq<u8> {
    s + Seq::new(pad_len(s.len()), |_i: int| pad_len(s.len()) as u8)
}

/// Appends PKCS#7 padding so that the result is a whole number of blocks.
pub fn apply_pkcs7_padding(input: &[u8]) -> (padded: Vec<u8>)
    requires
        input@.len() + BLOCK_SIZE <= usize::MAX,
    ensures
        padded@ == pkcs7_pad(input@),
        padded@.len() % 16 == 0,
        input@.len() < padded@.len() <= input@.len() + 16,
        padded@.subrange(0, input@.len() as int) == input@,
        forall|i: int|
            input@.len() <= i < padded@.len() ==> #[trigger] padded@[i] == (padded@.len()
                - input@.len()) as u8,
{
    proof {
        lemma_pad_shape(input@);
        lemma_pad_bytes(input@);
    }
    let block_size: usize = BLOCK_SIZE;
    let padding_len: usize = block_size - (input.len() % block_size);
    let mut padded = vstd::slice::slice_to_vec(input);
    let mut i: usize = 0;
    while i < padding_len
        invariant
            padding_len == pad_len(input@.len()),
            i <= padding_len,
            padded@ == input@ + Seq::new(i as nat, |_j: int| padding_len as u8),
        decreases padding_len - i,
    {
        padded.push(padding_len as u8);
        i = i + 1;
        assert(padded@ =~= input@ + Seq::new(i as nat, |_j: int| padding_len as u8));
    }
    padded
}

/// The padding length that the last byte of `s` announces.
pub open spec fn announced_pad_len(s: Seq<u8>) -> nat {
    s[s.len() - 1] as nat
}

/// The last `p` bytes of `s` all equal `p`.
pub open spec fn padding_bytes_valid(s: Seq<u8>, p: nat) -> bool {
    forall|i: int| 0 <= i < p ==> #[trigger] s[s.len() - 1 - i] == p as u8
}

/// `s` ends in well-formed PKCS#7 padding.
pub open spec fn has_valid_padding(s: Seq<u8>) -> bool {
    &&& s.len() > 0
    &&& 1 <= announced_pad_len(s) <= 16
    &&& announced_pad_len(s) <= s.len()
    &&& padding_bytes_valid(s, announced_pad_len(s))
}

/// What unpadding `s` gives: the first failed check, in the order in which they are made,
/// or the message that remains once the announced padding is cut off.
pub open spec fn pkcs7_unpad(s: Seq<u8>) -> Result<Seq<u8>, &'static str> {
    if s.len() == 0 {
        Err("Empty data")
    } else if !(1 <= announced_pad_len(s) <= 16) {
        Err("Invalid padding")
    } else if s.len() < announced_pad_len(s) {
        Err("Data too short for padding")
    } else if !padding_bytes_valid(s, announced_pad_len(s)) {
        Err("Invalid padding bytes")
    } else {
        Ok(s.subrange(0, s.len() - announced_pad_len(s)))
    }
}

/// Removes PKCS#7 padding, checking every padding byte.
pub fn remove_pkcs7_padding(data: &[u8]) -> (r: Result<Vec<u8>, &'static str>)
    ensures
        match r {
            Ok(v) => pkcs7_unpad(data@) == Ok::<Seq<u8>, &'static str>(v@),
            Err(e) => pkcs7_unpad(data@) == Err::<Seq<u8>, &'static str>(e),
        },
        r is Ok <==> has_valid_padding(data@),
{
    if data.is_empty() {
        return Err("Empty data");
    }
    let padding_len = data[data.len() - 1] as usize;
    if padding_len == 0 || padding_len > 16 {
        return Err("Invalid padding");
    }
    if data.len() < padding_len {
        return Err("Data too short for padding");
    }
    let mut i: usize = 0;
    while i < padding_len
        invariant
            padding_len == announced_pad_len(data@),
            1 <= padding_len <= 16,
            padding_len <= data@.len(),
            i <= padding_len,
            forall|k: int| 0 <= k < i ==> #[trigger] data@[data@.len() - 1 - k] == padding_len as u8,
        decreases padding_len - i,
    {
        if data[data.len() - 1 - i] != padding_len as u8 {
            return Err("Invalid padding bytes");
        }
        i = i + 1;
    }
    Ok(vstd::slice::slice_to_vec(&data[0..data.len() - padding_len]))
}

/// The padded message starts with the message, is longer than it by one to sixteen
/// bytes, and is a whole number of blocks.
pub proof fn lemma_pad_shape(s: Seq<u8>)
    ensures
        1 <= pad_len(s.len()) <= 16,
        pkcs7_pad(s).len() == s.len() + pad_len(s.len()),
        pkcs7_pad(s).len() % 16 == 0,
        s.len() < pkcs7_pad(s).len() <= s.len() + 16,
        pkcs7_pad(s).subrange(0, s.len() as int) == s,
{
    assert(pkcs7_pad(s).subrange(0, s.len() as int) =~= s);
}

/// Unpadding undoes padding: every message comes back unchanged.
pub proof fn lemma_unpad_pad(s: Seq<u8>)
    ensures
        has_valid_padding(pkcs7_pad(s)),
        pkcs7_unpad(pkcs7_pad(s)) == Ok::<Seq<u8>, &'static str>(s),
{
    lemma_pad_shape(s);
    let t = pkcs7_pad(s);
    let p = pad_len(s.len());
    assert(t[t.len() - 1] == p as u8);
    assert(announced_pad_len(t) == p);
    assert forall|i: int| 0 <= i < p implies #[trigger] t[t.len() - 1 - i] == p as u8 by {
        assert(t.len() - 1 - i >= s.len());
    }
    assert(t.subrange(0, t.len() - p) =~= s);
}

/// Padding undoes unpadding on whole blocks: a block-aligned buffer that unpads to `m`
/// is exactly the padding of `m`.
pub proof fn lemma_pad_unpad(d: Seq<u8>, m: Seq<u8>)
    requires
        pkcs7_unpad(d) == Ok::<Seq<u8>, &'static str>(m),
        d.len() % 16 == 0,
    ensures
        pkcs7_pad(m) == d,
{
    let p = announced_pad_len(d);
    assert(has_valid_padding(d));
    assert(m.len() == d.len() - p);
    let k = d.len() / 16;
    assert(d.len() == 16 * k);
    assert(pad_len(m.len()) == p) by {
        assert((16 * k - p) % 16 == (16 - p) % 16) by (nonlinear_arith)
            requires 1 <= p <= 16, k >= 1, 16 * k >= p;
    }
    lemma_pad_shape(m);
    assert forall|i: int| 0 <= i < d.len() implies #[trigger] pkcs7_pad(m)[i] == d[i] by {
        if i >= m.len() {
            let j = d.len() - 1 - i;
            assert(0 <= j < p);
            assert(d[d.len() - 1 - j] == p as u8);
        }
    }
    assert(pkcs7_pad(m) =~= d);
}

/// Every byte that padding appends equals the number of bytes appended.
pub proof fn lemma_pad_bytes(s: Seq<u8>)
    ensures
        forall|i: int|
            s.len() <= i < pkcs7_pad(s).len() ==> #[trigger] pkcs7_pad(s)[i] == (pkcs7_pad(s).len()
                - s.len()) as u8,
{
    lemma_pad_shape(s);
}

/// Unpadding accepts a message followed by `k` copies of `k`, for any `k` from 1 to 16,
/// and gives the message back.
pub proof fn lemma_unpad_accepts(m: Seq<u8>, k: nat)
    requires
        1 <= k <= 16,
    ensures
        pkcs7_unpad(m + Seq::new(k, |_i: int| k as u8)) == Ok::<Seq<u8>, &'static str>(m),
{
    let d = m + Seq::new(k, |_i: int| k as u8);
    assert(d[d.len() - 1] == k as u8);
    assert(announced_pad_len(d) == k);
    assert forall|i: int| 0 <= i < k implies #[trigger] d[d.len() - 1 - i] == k as u8 by {
        assert(d.len() - 1 - i >= m.len());
    }
    assert(d.subrange(0, d.len() - k) =~= m);
}

/// What unpadding accepts is always a message followed by `k` copies of `k`, with `k`
/// from 1 to 16, and the message is what comes back.
pub proof fn lemma_unpad_result(d: Seq<u8>, m: Seq<u8>)
    requires
        pkcs7_unpad(d) == Ok::<Seq<u8>, &'static str>(m),
    ensures
        1 <= d.len() - m.len() <= 16,
        d.subrange(0, m.len() as int) == m,
        forall|i: int| m.len() <= i < d.len() ==> #[trigger] d[i] == (d.len() - m.len()) as u8,
{
    let k = announced_pad_len(d);
    assert(m.len() == d.len() - k);
    assert forall|i: int| m.len() <= i < d.len() implies #[trigger] d[i] == (d.len() - m.len()) as u8 by {
        let j = d.len() - 1 - i;
        assert(0 <= j < k);
        assert(d[d.len() - 1 - j] == k as u8);
    }
}

/// Which error unpadding gives, read off the data's last byte `b`: "Empty data" for no
/// data, "Invalid padding" when `b` is 0 or above 16, "Data too short for padding" when
/// `b` exceeds the data's length, and otherwise "Invalid padding bytes" exactly when one
/// of the last `b` bytes differs from `b`.
pub proof fn lemma_unpad_errors(d: Seq<u8>)
    ensures
        d.len() == 0 <==> pkcs7_unpad(d) == Err::<Seq<u8>, &'static str>("Empty data"),
        d.len() > 0 && (d.last() == 0 || d.last() > 16) ==> pkcs7_unpad(d) == Err::<
            Seq<u8>,
            &'static str,
        >("Invalid padding"),
        d.len() > 0 && 1 <= d.last() <= 16 && d.len() < d.last() ==> pkcs7_unpad(d) == Err::<
            Seq<u8>,
            &'static str,
        >("Data too short for padding"),
        d.len() > 0 && 1 <= d.last() <= 16 && d.last() <= d.len() ==> (pkcs7_unpad(d) == Err::<
            Seq<u8>,
            &'static str,
        >("Invalid padding bytes") <==> exists|i: int|
            d.len() - d.last() <= i < d.len() && #[trigger] d[i] != d.last()),
{
    if d.len() > 0 && 1 <= d.last() <= 16 && d.last() <= d.len() {
        let k = d.last() as nat;
        assert(announced_pad_len(d) == k);
        if exists|i: int| d.len() - k <= i < d.len() && #[trigger] d[i] != d.last() {
            let i = choose|i: int| d.len() - k <= i < d.len() && #[trigger] d[i] != d.last();
            let j = d.len() - 1 - i;
            assert(d[d.len() - 1 - j] != k as u8);
            assert(!padding_bytes_valid(d, k));
        } else {
            assert forall|j: int| 0 <= j < k implies #[trigger] d[d.len() - 1 - j] == k as u8 by {
                let i = d.len() - 1 - j;
                assert(d.len() - k <= i < d.len());
                assert(!(d[i] != d.last()));
            }
            assert(padding_bytes_valid(d, k));
        }
    }
}

} // verus!
