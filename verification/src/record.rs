//! Records: the three fields that a tensor is written as.

use serde_bytes::ByteBuf;
use vstd::prelude::*;

use crate::buffer::buffer_bytes;
use crate::error::CodecError;
use crate::kind::Kind;
use crate::shape::shape_holds;

verus! {

/// A tensor as it is stored or sent: the kind of its elements, its shape,
/// and its elements as big-endian bytes.
#[derive(Debug, PartialEq, Eq)]
pub struct Record {
    pub kind: Kind,
    pub size: Vec<i64>,
    pub data: ByteBuf,
}

/// A record as a mathematical value.
pub struct RecordView {
    pub kind: Kind,
    pub size: Seq<i64>,
    pub data: Seq<u8>,
}

impl View for Record {
    type V = RecordView;

    open spec fn view(&self) -> RecordView {
        RecordView { kind: self.kind, size: self.size@, data: buffer_bytes(self.data) }
    }
}

impl RecordView {
    /// Whether the payload ends on an element boundary.
    pub open spec fn whole(self) -> bool {
        self.data.len() % self.kind.width() == 0
    }

    /// The number of elements that the payload holds.
    pub open spec fn count(self) -> nat {
        self.data.len() / self.kind.width()
    }

    /// Whether this is the record of a tensor: the kind is one that the
    /// codec writes, no extent is negative, and the payload has as many
    /// bytes as the volume of the shape times the width of an element.
    pub open spec fn consistent(self) -> bool {
        &&& self.kind.supported()
        &&& shape_holds(self.size, self.count())
        &&& self.data.len() == self.count() * self.kind.width()
    }
}

/// What the parts of a record make, the kind given by its tag: the record
/// of the kind that the tag stands for, or `UnknownKind` where it stands
/// for none.
pub open spec fn tagged(tag: libc::c_int, size: Seq<i64>, data: Seq<u8>) -> Result<
    RecordView,
    CodecError,
> {
    match Kind::of_tag(tag as int) {
        Some(kind) => Ok(RecordView { kind, size, data }),
        None => Err(CodecError::UnknownKind(tag)),
    }
}

impl Record {
    /// Makes a record from the tag of a kind, a shape and a payload, or
    /// fails with `UnknownKind` where the tag stands for no kind.
    pub fn from_tagged(tag: libc::c_int, size: Vec<i64>, data: ByteBuf) -> (record: Result<
        Record,
        CodecError,
    >)
        ensures
            match tagged(tag, size@, buffer_bytes(data)) {
                Ok(made) => record is Ok && record->Ok_0@ == made,
                Err(e) => record == Err::<Record, CodecError>(e),
            },
    {
        match Kind::of_c_int(tag) {
            Ok(kind) => Ok(Record { kind, size, data }),
            Err(e) => Err(e),
        }
    }

    /// Returns the tag of the kind of the elements.
    pub fn tag(&self) -> (tag: libc::c_int)
        ensures
            tag == self@.kind.tag(),
    {
        self.kind.c_int()
    }
}

} // verus!
