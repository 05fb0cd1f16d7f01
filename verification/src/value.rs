//! Values carried through the protocol: opaque byte payloads held in
//! `bytes::Bytes` handles. The core never inspects payload contents; every
//! contract speaks of a payload through its byte-sequence view.

use vstd::prelude::*;

verus! {

#[verifier::external_type_specification]
#[verifier::external_body]
pub struct ExBytes(bytes::Bytes);

/// A slot value: an opaque byte sequence.
pub type Value = bytes::Bytes;

/// The bytes that a `bytes::Bytes` handle holds, in order.
pub uninterp spec fn bytes_view(b: bytes::Bytes) -> Seq<u8>;

/// Relies on `bytes::Bytes::new`: an empty buffer.
#[verifier::external_body]
pub(crate) fn bytes_new() -> (r: bytes::Bytes)
    ensures
        bytes_view(r) == Seq::<u8>::empty(),
{
    bytes::Bytes::new()
}

/// Relies on `From<Vec<u8>> for bytes::Bytes`: the buffer holds exactly the
/// vector's bytes.
#[verifier::external_body]
pub(crate) fn bytes_from_vec(v: Vec<u8>) -> (r: bytes::Bytes)
    ensures
        bytes_view(r) == v@,
{
    bytes::Bytes::from(v)
}

/// Relies on `bytes::Bytes::len`: the number of bytes held.
#[verifier::external_body]
pub(crate) fn bytes_len(b: &bytes::Bytes) -> (n: usize)
    ensures
        n == bytes_view(*b).len(),
{
    b.len()
}

/// Relies on `Deref<Target = [u8]> for bytes::Bytes` and `[u8]::to_vec`:
/// copies out exactly the held bytes.
#[verifier::external_body]
pub(crate) fn bytes_to_vec(b: &bytes::Bytes) -> (v: Vec<u8>)
    ensures
        v@ == bytes_view(*b),
{
    b.as_ref().to_vec()
}

/// Relies on `Clone for bytes::Bytes`: a clone holds the same bytes.
#[verifier::external_body]
pub(crate) fn bytes_clone(b: &bytes::Bytes) -> (r: bytes::Bytes)
    ensures
        bytes_view(r) == bytes_view(*b),
{
    b.clone()
}

/// Decides whether a payload is empty; empty values mark no-op decisions.
pub fn value_is_empty(b: &bytes::Bytes) -> (r: bool)
    ensures
        r == (bytes_view(*b).len() == 0),
{
    bytes_len(b) == 0
}

} // verus!
