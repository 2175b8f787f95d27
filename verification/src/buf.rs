//! Reference counted byte strings.
//!
//! Byte strings are those of the `bytes` crate. Its operations are trusted
//! declarations; what they are believed to do is said above each of them.
use bytes::Bytes;
use vstd::prelude::*;

verus! {

/// The byte string type of the `bytes` crate.
#[verifier::external_type_specification]
#[verifier::external_body]
pub struct ExBytes(bytes::Bytes);

/// The bytes that a byte string holds.
pub uninterp spec fn content(b: Bytes) -> Seq<u8>;

/// `Bytes::new` makes the byte string that holds nothing.
pub assume_specification[ Bytes::new ]() -> (res: Bytes)
    ensures
        content(res) == Seq::<u8>::empty(),
;

/// `Bytes::copy_from_slice` makes a byte string with the bytes of the slice.
pub assume_specification[ Bytes::copy_from_slice ](data: &[u8]) -> (res: Bytes)
    ensures
        content(res) == data@,
;

/// `Bytes::clone` makes a second handle to the same bytes: as a value, it is
/// the byte string itself.
pub assume_specification[ <Bytes as Clone>::clone ](b: &Bytes) -> (res: Bytes)
    ensures
        res == *b,
;

/// Dereferencing a byte string gives the slice of the bytes that it holds.
pub assume_specification[ <Bytes as core::ops::Deref>::deref ](b: &Bytes) -> (res: &[u8])
    ensures
        res@ == content(*b),
;

} // verus!
