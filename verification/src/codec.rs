//! The codec: a tensor to its record, and a record to its tensor.

use vstd::prelude::*;

use crate::buffer::{buffer_bytes, buffer_from_vec};
use crate::builder::{assembled, entries_of, FieldValue};
use crate::convert::{
    from_bytes_double, from_bytes_float, from_bytes_int, from_bytes_int64, from_bytes_uint8,
    to_bytes_double, to_bytes_float, to_bytes_int, to_bytes_int64, to_bytes_uint8,
};
use crate::element::{
    lemma_parsed_len, lemma_parsed_payload, lemma_payload_len, lemma_payload_parsed, parsed,
    payload,
};
use crate::error::CodecError;
use crate::kind::Kind;
use crate::record::{tagged, Record, RecordView};
use crate::shape::{shape_holds, volume};
use crate::tensor::{Elements, Run, Tensor, TensorView};

verus! {

/// What writing a tensor gives: its kind and shape as they are and its
/// elements as a payload, or `UnsupportedKind` where the codec does not
/// write elements of its kind.
pub open spec fn encoded(tensor: TensorView) -> Result<RecordView, CodecError> {
    if tensor.kind.supported() {
        Ok(
            RecordView {
                kind: tensor.kind,
                size: tensor.size,
                data: payload(tensor.kind, tensor.values),
            },
        )
    } else {
        Err(CodecError::UnsupportedKind(tensor.kind))
    }
}

/// What reading a record gives: the tensor of its kind and shape that holds
/// the elements of its payload; or `UnsupportedKind` where the codec does
/// not read elements of its kind, else `TruncatedPayload` where the payload
/// does not end on an element boundary, else `ShapeMismatch` where the shape
/// is none that the elements of the payload can have.
pub open spec fn decoded(record: RecordView) -> Result<TensorView, CodecError> {
    if !record.kind.supported() {
        Err(CodecError::UnsupportedKind(record.kind))
    } else if !record.whole() {
        Err(CodecError::TruncatedPayload)
    } else if !shape_holds(record.size, record.count()) {
        Err(CodecError::ShapeMismatch)
    } else {
        Ok(
            TensorView {
                kind: record.kind,
                size: record.size,
                values: parsed(record.kind, record.data),
            },
        )
    }
}

/// Reading what was written gives the tensor back: the same kind, the same
/// shape and the same elements.
pub proof fn lemma_decoded_encoded(tensor: TensorView)
    requires
        tensor.wf(),
        tensor.kind.supported(),
    ensures
        encoded(tensor) is Ok,
        decoded(encoded(tensor)->Ok_0) == Ok::<TensorView, CodecError>(tensor),
{
    let record = encoded(tensor)->Ok_0;
    let width = tensor.kind.width() as int;
    lemma_payload_len(tensor.kind, tensor.values);
    lemma_parsed_payload(tensor.kind, tensor.values);
    vstd::arithmetic::div_mod::lemma_fundamental_div_mod_converse(
        record.data.len() as int,
        width,
        tensor.values.len() as int,
        0,
    );
}

/// The payload of a written tensor has as many bytes as the volume of the
/// shape times the width of an element, and the record is consistent.
pub proof fn lemma_encoded_len(tensor: TensorView)
    requires
        tensor.wf(),
        tensor.kind.supported(),
    ensures
        encoded(tensor) is Ok,
        encoded(tensor)->Ok_0.data.len() == volume(tensor.size) * tensor.kind.width(),
        encoded(tensor)->Ok_0.consistent(),
{
    let record = encoded(tensor)->Ok_0;
    lemma_payload_len(tensor.kind, tensor.values);
    vstd::arithmetic::div_mod::lemma_fundamental_div_mod_converse(
        record.data.len() as int,
        tensor.kind.width() as int,
        tensor.values.len() as int,
        0,
    );
}

/// A record can be read exactly where it is consistent, and writing what
/// was read gives the record back.
pub proof fn lemma_encoded_decoded(record: RecordView)
    ensures
        decoded(record) is Ok <==> record.consistent(),
        decoded(record) is Ok ==> decoded(record)->Ok_0.wf() && encoded(decoded(record)->Ok_0)
            == Ok::<RecordView, CodecError>(record),
{
    let width = record.kind.width() as int;
    if record.kind.supported() {
        vstd::arithmetic::div_mod::lemma_fundamental_div_mod(record.data.len() as int, width);
        assert(width * (record.data.len() as int / width) == (record.data.len() as int / width)
            * width) by (nonlinear_arith);
        if record.whole() {
            lemma_parsed_len(record.kind, record.data);
            lemma_payload_parsed(record.kind, record.data);
        }
    }
}

impl Elements {
    /// Writes the elements as big-endian bytes, or fails with
    /// `UnsupportedKind` where the codec does not write elements of their
    /// kind.
    pub fn to_bytes(&self) -> (data: Result<Vec<u8>, CodecError>)
        ensures
            self@.kind.supported() ==> data is Ok && data->Ok_0@ == payload(
                self@.kind,
                self@.values,
            ),
            !self@.kind.supported() ==> data == Err::<Vec<u8>, CodecError>(
                CodecError::UnsupportedKind(self@.kind),
            ),
    {
        match self {
            Elements::Uint8(values) => Ok(to_bytes_uint8(values.as_slice())),
            Elements::Int(values) => Ok(to_bytes_int(values.as_slice())),
            Elements::Int64(values) => Ok(to_bytes_int64(values.as_slice())),
            Elements::Float(values) => Ok(to_bytes_float(values.as_slice())),
            Elements::Double(values) => Ok(to_bytes_double(values.as_slice())),
            _ => Err(CodecError::UnsupportedKind(self.kind())),
        }
    }

    /// Reads elements of a kind from big-endian bytes; or fails with
    /// `UnsupportedKind` where the codec does not read elements of the kind,
    /// else with `TruncatedPayload` where the bytes do not end on an element
    /// boundary.
    pub fn from_bytes(kind: Kind, data: &[u8]) -> (elements: Result<Elements, CodecError>)
        ensures
            !kind.supported() ==> elements == Err::<Elements, CodecError>(
                CodecError::UnsupportedKind(kind),
            ),
            kind.supported() && data@.len() % kind.width() != 0 ==> elements == Err::<
                Elements,
                CodecError,
            >(CodecError::TruncatedPayload),
            kind.supported() && data@.len() % kind.width() == 0 ==> elements is Ok
                && elements->Ok_0@ == (Run { kind, values: parsed(kind, data@) }),
    {
        match kind {
            Kind::Uint8 => Ok(Elements::Uint8(from_bytes_uint8(data))),
            Kind::Int => match from_bytes_int(data) {
                Ok(values) => Ok(Elements::Int(values)),
                Err(e) => Err(e),
            },
            Kind::Int64 => match from_bytes_int64(data) {
                Ok(values) => Ok(Elements::Int64(values)),
                Err(e) => Err(e),
            },
            Kind::Float => match from_bytes_float(data) {
                Ok(values) => Ok(Elements::Float(values)),
                Err(e) => Err(e),
            },
            Kind::Double => match from_bytes_double(data) {
                Ok(values) => Ok(Elements::Double(values)),
                Err(e) => Err(e),
            },
            _ => Err(CodecError::UnsupportedKind(kind)),
        }
    }
}

impl Tensor {
    /// Writes this tensor as a record, or fails with `UnsupportedKind` where
    /// the codec does not write elements of its kind.
    pub fn serialize(&self) -> (record: Result<Record, CodecError>)
        ensures
            self@.wf(),
            match encoded(self@) {
                Ok(written) => record is Ok && record->Ok_0@ == written && written.data.len()
                    == volume(self@.size) * self@.kind.width(),
                Err(e) => record == Err::<Record, CodecError>(e),
            },
    {
        let elements = self.elements();
        match elements.to_bytes() {
            Ok(data) => {
                proof {
                    lemma_encoded_len(self@);
                }
                let size = crate::shape::copy_shape(self.size());
                Ok(Record { kind: elements.kind(), size, data: buffer_from_vec(data) })
            },
            Err(e) => Err(e),
        }
    }

    /// Reads the tensor that a record holds; or fails with `UnsupportedKind`
    /// where the codec does not read elements of its kind, else with
    /// `TruncatedPayload` where the payload does not end on an element
    /// boundary, else with `ShapeMismatch` where the shape is none that the
    /// elements of the payload can have.
    pub fn from_record(record: Record) -> (tensor: Result<Tensor, CodecError>)
        ensures
            match decoded(record@) {
                Ok(read) => tensor is Ok && tensor->Ok_0@ == read && read.wf(),
                Err(e) => tensor == Err::<Tensor, CodecError>(e),
            },
    {
        let ghost view = record@;
        let Record { kind, size, data } = record;
        let data = data.into_vec();
        match Elements::from_bytes(kind, data.as_slice()) {
            Ok(elements) => {
                proof {
                    lemma_parsed_len(kind, data@);
                    lemma_encoded_decoded(view);
                }
                Tensor::new(elements, size)
            },
            Err(e) => Err(e),
        }
    }

    /// Reads the tensor that the fields of a record hold, in whatever order
    /// they come; fails with `DuplicateField` or `MissingField` where they
    /// do not make a record, and else as `from_record` does.
    pub fn deserialize(entries: Vec<FieldValue>) -> (tensor: Result<Tensor, CodecError>)
        ensures
            match assembled(entries_of(entries@)) {
                Ok(record) => match decoded(record) {
                    Ok(read) => tensor is Ok && tensor->Ok_0@ == read && read.wf(),
                    Err(e) => tensor == Err::<Tensor, CodecError>(e),
                },
                Err(e) => tensor == Err::<Tensor, CodecError>(e),
            },
    {
        match Record::from_entries(entries) {
            Ok(record) => Tensor::from_record(record),
            Err(e) => Err(e),
        }
    }

    /// Reads the tensor that the parts of a record hold, the kind given by
    /// its tag; fails with `UnknownKind` where the tag stands for no kind,
    /// and else as `from_record` does.
    pub fn from_tagged(tag: libc::c_int, size: Vec<i64>, data: serde_bytes::ByteBuf) -> (tensor:
        Result<Tensor, CodecError>)
        ensures
            match tagged(tag, size@, buffer_bytes(data)) {
                Ok(record) => match decoded(record) {
                    Ok(read) => tensor is Ok && tensor->Ok_0@ == read && read.wf(),
                    Err(e) => tensor == Err::<Tensor, CodecError>(e),
                },
                Err(e) => tensor == Err::<Tensor, CodecError>(e),
            },
    {
        match Record::from_tagged(tag, size, data) {
            Ok(record) => Tensor::from_record(record),
            Err(e) => Err(e),
        }
    }
}

} // verus!
