//! The two-place buffer that collects the digits of a `\xNN` escape.
//!
//! The buffer is a `tinyvec::ArrayVec` over an array of two bytes. Verus
//! does not look inside it: what this module says of its methods is taken
//! from the source of `tinyvec` and is not proved here.

use vstd::prelude::*;

verus! {

/// `tinyvec::ArrayVec`, a vector that lives in an array of fixed length.
/// Verus is told that the type exists and nothing of what it holds.
#[verifier::external_type_specification]
#[verifier::external_body]
#[verifier::reject_recursive_types(A)]
pub struct ExArrayVec<A>(tinyvec::ArrayVec<A>);

/// The bytes that the buffer holds, oldest first.
pub uninterp spec fn hex_pair_items(buffer: tinyvec::ArrayVec<[u8; 2]>) -> Seq<u8>;

/// `ArrayVec::default`: a buffer over a zeroed array, with length zero, so
/// it holds nothing.
#[verifier::external_body]
pub(crate) fn hex_pair_new() -> (buffer: tinyvec::ArrayVec<[u8; 2]>)
    ensures
        hex_pair_items(buffer) == Seq::<u8>::empty(),
{
    tinyvec::ArrayVec::default()
}

/// `ArrayVec::len`: the number of bytes held.
#[verifier::external_body]
pub(crate) fn hex_pair_len(buffer: &tinyvec::ArrayVec<[u8; 2]>) -> (n: usize)
    ensures
        n == hex_pair_items(*buffer).len(),
{
    buffer.len()
}

/// `ArrayVec::push`: stores the byte behind those already held. It panics
/// when the array is full, so a full buffer is left out.
#[verifier::external_body]
pub(crate) fn hex_pair_push(buffer: &mut tinyvec::ArrayVec<[u8; 2]>, digit: u8)
    requires
        hex_pair_items(*old(buffer)).len() < 2,
    ensures
        hex_pair_items(*final(buffer)) == hex_pair_items(*old(buffer)).push(digit),
{
    buffer.push(digit)
}

/// Indexing, which goes through the slice of the bytes held: the byte at
/// `index`. It panics past the length, so such an index is left out.
#[verifier::external_body]
pub(crate) fn hex_pair_get(buffer: &tinyvec::ArrayVec<[u8; 2]>, index: usize) -> (digit: u8)
    requires
        index < hex_pair_items(*buffer).len(),
    ensures
        digit == hex_pair_items(*buffer)[index as int],
{
    buffer[index]
}

/// `ArrayVec::clear`: truncates to length zero, so the buffer holds nothing.
#[verifier::external_body]
pub(crate) fn hex_pair_clear(buffer: &mut tinyvec::ArrayVec<[u8; 2]>)
    ensures
        hex_pair_items(*final(buffer)) == Seq::<u8>::empty(),
{
    buffer.clear()
}

} // verus!
