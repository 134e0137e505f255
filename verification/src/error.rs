//! The ways in which writing or reading a record can fail.

use vstd::prelude::*;

use crate::field::Field;
use crate::kind::Kind;

verus! {

/// Why a tensor could not be written, or a record not be read.
#[derive(Debug, Copy, Clone, PartialEq, Eq, Structural)]
pub enum CodecError {
    /// The codec neither writes nor reads elements of this kind.
    UnsupportedKind(Kind),
    /// The tag stands for no kind.
    UnknownKind(libc::c_int),
    /// The record lacks this field.
    MissingField(Field),
    /// The record holds this field more than once.
    DuplicateField(Field),
    /// The record holds a field that is none of the three.
    UnknownField,
    /// The payload does not end on an element boundary.
    TruncatedPayload,
    /// The payload holds another number of elements than the shape asks for.
    ShapeMismatch,
}

} // verus!
