//! Elements of the BN254 scalar field as 32-byte buffers, and the reply of the
//! square-root binding.

use vstd::prelude::*;

verus! {

/// An element of the BN254 scalar field, held as its 32-byte serialisation.
#[derive(Clone, Copy, Debug, PartialEq, Eq)]
pub struct Fr {
    pub data: [u8; 32],
}

impl Fr {
    /// The element whose serialisation is `data`.
    pub fn from_buffer(data: [u8; 32]) -> (f: Fr)
        ensures
            f.data@ == data@,
    {
        Fr { data }
    }

    /// The 32-byte serialisation of the element.
    pub fn to_buffer(&self) -> (v: Vec<u8>)
        ensures
            v@ == self.data@,
    {
        vstd::slice::slice_to_vec(self.data.as_slice())
    }
}

/// The reply of the square-root binding: a flag byte, then a 32-byte element.
/// The flag is 1 exactly when a square root exists.
pub fn parse_sqrt_result(result_buf: &[u8; 33]) -> (r: Option<Fr>)
    ensures
        r is Some <==> result_buf@[0] == 1,
        r matches Some(f) ==> f.data@ == result_buf@.subrange(1, 33),
{
    let is_sqrt = result_buf[0] == 1;
    if is_sqrt {
        let mut sqrt_buf: [u8; 32] = [0u8; 32];
        let mut i: usize = 0;
        while i < 32
            invariant
                0 <= i <= 32,
                sqrt_buf@.len() == 32,
                forall|k: int| 0 <= k < i ==> sqrt_buf@[k] == result_buf@[k + 1],
            decreases 32 - i,
        {
            sqrt_buf[i] = result_buf[i + 1];
            i = i + 1;
        }
        assert(sqrt_buf@ =~= result_buf@.subrange(1, 33));
        Some(Fr::from_buffer(sqrt_buf))
    } else {
        None
    }
}

} // verus!
