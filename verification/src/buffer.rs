//! The byte buffer that carries a payload: `serde_bytes::ByteBuf`.
//!
//! Nothing here is proved. The buffer is a value of another crate, and what
//! is said of it is what that crate's source shows.

use serde_bytes::ByteBuf;
use vstd::prelude::*;

verus! {

/// `serde_bytes::ByteBuf`, a wrapper around a vector of bytes. Nothing is
/// known of a value of it but what `buffer_bytes` names.
#[verifier::external_type_specification]
#[verifier::external_body]
pub struct ExByteBuf(serde_bytes::ByteBuf);

/// The bytes that a buffer holds, in order.
pub uninterp spec fn buffer_bytes(buffer: ByteBuf) -> Seq<u8>;

/// `ByteBuf::from`, on a vector: wraps the vector as it is, so that the
/// buffer holds the bytes of the vector, in order.
#[verifier::external_body]
pub(crate) fn buffer_from_vec(bytes: Vec<u8>) -> (buffer: ByteBuf)
    ensures
        buffer_bytes(buffer) == bytes@,
{
    ByteBuf::from(bytes)
}

/// `ByteBuf::into_vec`: hands out the vector that the buffer wraps, so
/// that the vector holds the bytes of the buffer, in order.
pub assume_specification[ serde_bytes::ByteBuf::into_vec ](buffer: ByteBuf) -> (bytes: Vec<u8>)
    ensures
        bytes@ == buffer_bytes(buffer),
;

} // verus!
