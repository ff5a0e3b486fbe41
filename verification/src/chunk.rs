//! Shared byte chunks.
//!
//! Stream data travels as `bytes::Bytes`: a cheaply cloned, immutable run of
//! bytes. What such a chunk holds is named by [`contents`]; the items below
//! say what each operation on a chunk does to it.
use bytes::Bytes;
use vstd::prelude::*;

verus! {

/// `bytes::Bytes` as an opaque type.
#[verifier::external_type_specification]
#[verifier::external_body]
pub struct ExBytes(Bytes);

/// The bytes that a chunk holds, in order.
pub uninterp spec fn contents(b: Bytes) -> Seq<u8>;

/// `Bytes::len` is the number of bytes held.
pub assume_specification[ Bytes::len ](b: &Bytes) -> (n: usize)
    ensures
        n == contents(*b).len(),
;

/// `Bytes::new` makes an empty chunk.
pub assume_specification[ Bytes::new ]() -> (r: Bytes)
    ensures
        contents(r) == Seq::<u8>::empty(),
;

/// `Bytes::copy_from_slice` makes a chunk holding a copy of `data`.
pub assume_specification[ Bytes::copy_from_slice ](data: &[u8]) -> (r: Bytes)
    ensures
        contents(r) == data@,
;

/// Cloning a chunk gives a second handle on the same bytes.
pub assume_specification[ <Bytes as Clone>::clone ](b: &Bytes) -> (r: Bytes)
    ensures
        contents(r) == contents(*b),
;

/// `Bytes::slice` over `from..to`: the bytes of that range. The call panics
/// on a range that is reversed or reaches past the end.
#[verifier::external_body]
pub(crate) fn slice(b: &Bytes, from: usize, to: usize) -> (r: Bytes)
    requires
        from <= to <= contents(*b).len(),
    ensures
        contents(r) == contents(*b).subrange(from as int, to as int),
{
    b.slice(from..to)
}

/// `Bytes::deref`: the held bytes as a slice.
#[verifier::external_body]
pub(crate) fn as_slice(b: &Bytes) -> (r: &[u8])
    ensures
        r@ == contents(*b),
{
    b
}

/// `Bytes::from(Vec<u8>)` takes over the vector's bytes.
#[verifier::external_body]
pub(crate) fn from_vec(v: Vec<u8>) -> (r: Bytes)
    ensures
        contents(r) == v@,
{
    Bytes::from(v)
}

} // verus!
