//! Small helpers on wire data.
use bytes::Bytes;
use vstd::prelude::*;

verus! {

#[verifier::external_type_specification]
#[verifier::external_body]
pub struct ExBytes(Bytes);

/// The bytes a `Bytes` buffer holds.
pub uninterp spec fn bytes_content(b: Bytes) -> Seq<u8>;

/// The number of bytes in the buffer (`Bytes::len`).
#[verifier::external_body]
fn bytes_len(b: &Bytes) -> (res: usize)
    ensures
        res == bytes_content(*b).len(),
{
    b.len()
}

/// The memory a buffer of wire data accounts for: for a decoded message
/// its length equals its capacity.
pub fn bytes_capacity(b: &Bytes) -> (res: usize)
    ensures
        res == bytes_content(*b).len(),
{
    bytes_len(b)
}

} // verus!
