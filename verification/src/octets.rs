//! The shared byte buffers that packets travel in.
use bytes::Bytes;
use vstd::prelude::*;

verus! {

/// A cheaply cloned, immutable buffer of the `bytes` crate.
#[verifier::external_type_specification]
#[verifier::external_body]
pub struct ExBytes(bytes::Bytes);

/// The octets that a buffer holds.
pub uninterp spec fn octets_of(buffer: Bytes) -> Seq<u8>;

/// Calls `<Bytes as AsRef<[u8]>>::as_ref`. Taken on trust: the slice holds the octets of the buffer.
#[verifier::external_body]
pub(crate) fn octets(buffer: &Bytes) -> (slice: &[u8])
    ensures
        slice@ == octets_of(*buffer),
{
    buffer.as_ref()
}

/// `Bytes::copy_from_slice`. Taken on trust: the new buffer holds the octets of the slice.
pub assume_specification[ bytes::Bytes::copy_from_slice ](data: &[u8]) -> (buffer: Bytes)
    ensures
        octets_of(buffer) == data@,
;

} // verus!
