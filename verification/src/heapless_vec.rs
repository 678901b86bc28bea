//! The fixed-capacity byte vectors of `heapless` that the wire payloads and
//! frames are returned in. Their contents are named by capacity, and only the
//! calls that the library makes are given contracts.

use vstd::prelude::*;

verus! {

#[verifier::external_type_specification]
#[verifier::external_body]
#[verifier::reject_recursive_types(T)]
pub struct ExHeaplessVec<T, const N: usize>(heapless::Vec<T, N>);

/// The bytes held by a control-response payload vector.
pub uninterp spec fn payload_bytes(v: heapless::Vec<u8, 256>) -> Seq<u8>;

/// The bytes held by a receive-statistics payload vector.
pub uninterp spec fn stats_bytes(v: heapless::Vec<u8, 9>) -> Seq<u8>;

/// The bytes held by a framed control-response vector.
pub uninterp spec fn frame_bytes(v: heapless::Vec<u8, 260>) -> Seq<u8>;

/// `heapless::Vec::<u8, 256>::from_slice`: copies the slice into a new vector
/// when it fits the capacity and fails, with `Err(())`, exactly when it does not.
#[verifier::external_body]
pub(crate) fn payload_from_slice(bytes: &[u8]) -> (r: Result<heapless::Vec<u8, 256>, ()>)
    ensures
        bytes@.len() <= 256 ==> r is Ok && payload_bytes(r->Ok_0) == bytes@,
        bytes@.len() > 256 ==> r is Err,
{
    heapless::Vec::from_slice(bytes)
}

/// `heapless::Vec::<u8, 256>::as_slice`: the vector's contents, at most its
/// capacity long.
#[verifier::external_body]
pub(crate) fn payload_as_slice(v: &heapless::Vec<u8, 256>) -> (s: &[u8])
    ensures
        s@ == payload_bytes(*v),
        s@.len() <= 256,
{
    v.as_slice()
}

/// `heapless::Vec::<u8, 9>::from_slice`: copies the slice into a new vector
/// when it fits the capacity and fails, with `Err(())`, exactly when it does not.
#[verifier::external_body]
pub(crate) fn stats_from_slice(bytes: &[u8]) -> (r: Result<heapless::Vec<u8, 9>, ()>)
    ensures
        bytes@.len() <= 9 ==> r is Ok && stats_bytes(r->Ok_0) == bytes@,
        bytes@.len() > 9 ==> r is Err,
{
    heapless::Vec::from_slice(bytes)
}

/// `heapless::Vec::<u8, 260>::from_slice`: copies the slice into a new vector
/// when it fits the capacity and fails, with `Err(())`, exactly when it does not.
#[verifier::external_body]
pub(crate) fn frame_from_slice(bytes: &[u8]) -> (r: Result<heapless::Vec<u8, 260>, ()>)
    ensures
        bytes@.len() <= 260 ==> r is Ok && frame_bytes(r->Ok_0) == bytes@,
        bytes@.len() > 260 ==> r is Err,
{
    heapless::Vec::from_slice(bytes)
}

} // verus!
