//! Tensors: a run of elements of one kind, laid out in a shape.

use vstd::prelude::*;

use crate::endian::radix_pow;
use crate::error::CodecError;
use crate::kind::Kind;
use crate::shape::{shape_holds, shape_matches, volume};

verus! {

/// The elements of a tensor, flat and in row-major order.
///
/// A float is held by its IEEE-754 bits, a complex number by the bits of its
/// two parts, the real part in the upper half.
#[derive(Debug, PartialEq, Eq)]
pub enum Elements {
    Uint8(Vec<u8>),
    Int8(Vec<i8>),
    Int16(Vec<i16>),
    Int(Vec<i32>),
    Int64(Vec<i64>),
    Half(Vec<u16>),
    Float(Vec<u32>),
    Double(Vec<u64>),
    ComplexHalf(Vec<u32>),
    ComplexFloat(Vec<u64>),
    ComplexDouble(Vec<u128>),
    Bool(Vec<bool>),
}

/// A run of elements of one kind, each as an integer.
pub struct Run {
    pub kind: Kind,
    pub values: Seq<int>,
}

/// The integers that a run of `u8` stands for.
pub open spec fn ints_u8(s: Seq<u8>) -> Seq<int> {
    Seq::new(s.len(), |i: int| s[i] as int)
}

/// The integers that a run of `i8` stands for.
pub open spec fn ints_i8(s: Seq<i8>) -> Seq<int> {
    Seq::new(s.len(), |i: int| s[i] as int)
}

/// The integers that a run of `i16` stands for.
pub open spec fn ints_i16(s: Seq<i16>) -> Seq<int> {
    Seq::new(s.len(), |i: int| s[i] as int)
}

/// The integers that a run of `i32` stands for.
pub open spec fn ints_i32(s: Seq<i32>) -> Seq<int> {
    Seq::new(s.len(), |i: int| s[i] as int)
}

/// The integers that a run of `i64` stands for.
pub open spec fn ints_i64(s: Seq<i64>) -> Seq<int> {
    Seq::new(s.len(), |i: int| s[i] as int)
}

/// The integers that a run of `u16` stands for.
pub open spec fn ints_u16(s: Seq<u16>) -> Seq<int> {
    Seq::new(s.len(), |i: int| s[i] as int)
}

/// The integers that a run of `u32` stands for.
pub open spec fn ints_u32(s: Seq<u32>) -> Seq<int> {
    Seq::new(s.len(), |i: int| s[i] as int)
}

/// The integers that a run of `u64` stands for.
pub open spec fn ints_u64(s: Seq<u64>) -> Seq<int> {
    Seq::new(s.len(), |i: int| s[i] as int)
}

/// The integers that a run of `u128` stands for.
pub open spec fn ints_u128(s: Seq<u128>) -> Seq<int> {
    Seq::new(s.len(), |i: int| s[i] as int)
}

/// The integers that a run of `bool` stands for: 1 for true, 0 for false.
pub open spec fn ints_bool(s: Seq<bool>) -> Seq<int> {
    Seq::new(
        s.len(),
        |i: int|
            if s[i] {
                1int
            } else {
                0int
            },
    )
}

impl View for Elements {
    type V = Run;

    open spec fn view(&self) -> Run {
        match *self {
            Elements::Uint8(v) => Run { kind: Kind::Uint8, values: ints_u8(v@) },
            Elements::Int8(v) => Run { kind: Kind::Int8, values: ints_i8(v@) },
            Elements::Int16(v) => Run { kind: Kind::Int16, values: ints_i16(v@) },
            Elements::Int(v) => Run { kind: Kind::Int, values: ints_i32(v@) },
            Elements::Int64(v) => Run { kind: Kind::Int64, values: ints_i64(v@) },
            Elements::Half(v) => Run { kind: Kind::Half, values: ints_u16(v@) },
            Elements::Float(v) => Run { kind: Kind::Float, values: ints_u32(v@) },
            Elements::Double(v) => Run { kind: Kind::Double, values: ints_u64(v@) },
            Elements::ComplexHalf(v) => Run { kind: Kind::ComplexHalf, values: ints_u32(v@) },
            Elements::ComplexFloat(v) => Run { kind: Kind::ComplexFloat, values: ints_u64(v@) },
            Elements::ComplexDouble(v) => Run {
                kind: Kind::ComplexDouble,
                values: ints_u128(v@),
            },
            Elements::Bool(v) => Run { kind: Kind::Bool, values: ints_bool(v@) },
        }
    }
}

impl Clone for Elements {
    fn clone(&self) -> (copy: Elements)
        ensures
            copy@ == self@,
    {
        match self {
            Elements::Uint8(v) => {
                let copy = v.clone();
                assert(ints_u8(copy@) =~= ints_u8(v@));
                Elements::Uint8(copy)
            },
            Elements::Int8(v) => {
                let copy = v.clone();
                assert(ints_i8(copy@) =~= ints_i8(v@));
                Elements::Int8(copy)
            },
            Elements::Int16(v) => {
                let copy = v.clone();
                assert(ints_i16(copy@) =~= ints_i16(v@));
                Elements::Int16(copy)
            },
            Elements::Int(v) => {
                let copy = v.clone();
                assert(ints_i32(copy@) =~= ints_i32(v@));
                Elements::Int(copy)
            },
            Elements::Int64(v) => {
                let copy = v.clone();
                assert(ints_i64(copy@) =~= ints_i64(v@));
                Elements::Int64(copy)
            },
            Elements::Half(v) => {
                let copy = v.clone();
                assert(ints_u16(copy@) =~= ints_u16(v@));
                Elements::Half(copy)
            },
            Elements::Float(v) => {
                let copy = v.clone();
                assert(ints_u32(copy@) =~= ints_u32(v@));
                Elements::Float(copy)
            },
            Elements::Double(v) => {
                let copy = v.clone();
                assert(ints_u64(copy@) =~= ints_u64(v@));
                Elements::Double(copy)
            },
            Elements::ComplexHalf(v) => {
                let copy = v.clone();
                assert(ints_u32(copy@) =~= ints_u32(v@));
                Elements::ComplexHalf(copy)
            },
            Elements::ComplexFloat(v) => {
                let copy = v.clone();
                assert(ints_u64(copy@) =~= ints_u64(v@));
                Elements::ComplexFloat(copy)
            },
            Elements::ComplexDouble(v) => {
                let copy = v.clone();
                assert(ints_u128(copy@) =~= ints_u128(v@));
                Elements::ComplexDouble(copy)
            },
            Elements::Bool(v) => {
                let copy = v.clone();
                assert(ints_bool(copy@) =~= ints_bool(v@));
                Elements::Bool(copy)
            },
        }
    }
}

impl Elements {
    /// Every element is one that the kind of the run can hold.
    pub proof fn lemma_values_hold(&self)
        ensures
            self@.kind.holds_all(self@.values),
    {
        reveal_with_fuel(radix_pow, 17);
    }

    /// Returns the kind of the elements.
    pub fn kind(&self) -> (kind: Kind)
        ensures
            kind == self@.kind,
    {
        match self {
            Elements::Uint8(_) => Kind::Uint8,
            Elements::Int8(_) => Kind::Int8,
            Elements::Int16(_) => Kind::Int16,
            Elements::Int(_) => Kind::Int,
            Elements::Int64(_) => Kind::Int64,
            Elements::Half(_) => Kind::Half,
            Elements::Float(_) => Kind::Float,
            Elements::Double(_) => Kind::Double,
            Elements::ComplexHalf(_) => Kind::ComplexHalf,
            Elements::ComplexFloat(_) => Kind::ComplexFloat,
            Elements::ComplexDouble(_) => Kind::ComplexDouble,
            Elements::Bool(_) => Kind::Bool,
        }
    }

    /// Returns the number of elements.
    pub fn len(&self) -> (len: usize)
        ensures
            len == self@.values.len(),
    {
        match self {
            Elements::Uint8(v) => v.len(),
            Elements::Int8(v) => v.len(),
            Elements::Int16(v) => v.len(),
            Elements::Int(v) => v.len(),
            Elements::Int64(v) => v.len(),
            Elements::Half(v) => v.len(),
            Elements::Float(v) => v.len(),
            Elements::Double(v) => v.len(),
            Elements::ComplexHalf(v) => v.len(),
            Elements::ComplexFloat(v) => v.len(),
            Elements::ComplexDouble(v) => v.len(),
            Elements::Bool(v) => v.len(),
        }
    }
}

/// A tensor as a mathematical value: its kind, its shape and its elements
/// in row-major order.
pub struct TensorView {
    pub kind: Kind,
    pub size: Seq<i64>,
    pub values: Seq<int>,
}

impl TensorView {
    /// Whether this is a tensor: the shape is one that the elements can
    /// have, and each element is one that the kind can hold.
    pub open spec fn wf(self) -> bool {
        shape_holds(self.size, self.values.len()) && self.kind.holds_all(self.values)
    }
}

/// A tensor: elements of one kind, laid out in a shape whose volume is
/// their number.
#[derive(Debug, PartialEq, Eq)]
pub struct Tensor {
    size: Vec<i64>,
    elements: Elements,
}

impl View for Tensor {
    type V = TensorView;

    closed spec fn view(&self) -> TensorView {
        TensorView {
            kind: self.elements@.kind,
            size: self.size@,
            values: self.elements@.values,
        }
    }
}

impl Clone for Tensor {
    fn clone(&self) -> (copy: Tensor)
        ensures
            copy@ == self@,
            self@.wf(),
    {
        proof {
            use_type_invariant(self);
            self.elements.lemma_values_hold();
        }
        let size = self.size.clone();
        assert(size@ =~= self.size@);
        Tensor { size, elements: self.elements.clone() }
    }
}

impl Tensor {
    #[verifier::type_invariant]
    spec fn shaped(&self) -> bool {
        shape_holds(self.size@, self.elements@.values.len())
    }

    /// Makes the tensor that holds `elements` in the shape `size`, or fails
    /// with `ShapeMismatch` where `size` has a negative extent or another
    /// volume than the number of elements.
    pub fn new(elements: Elements, size: Vec<i64>) -> (tensor: Result<Tensor, CodecError>)
        ensures
            match tensor {
                Ok(made) => {
                    &&& shape_holds(size@, elements@.values.len())
                    &&& made@.kind == elements@.kind
                    &&& made@.size == size@
                    &&& made@.values == elements@.values
                    &&& made@.wf()
                },
                Err(e) => {
                    &&& !shape_holds(size@, elements@.values.len())
                    &&& e == CodecError::ShapeMismatch
                },
            },
    {
        if shape_matches(size.as_slice(), elements.len()) {
            proof {
                elements.lemma_values_hold();
            }
            Ok(Tensor { size, elements })
        } else {
            Err(CodecError::ShapeMismatch)
        }
    }

    /// Lays the elements of this tensor out in another shape, or fails with
    /// `ShapeMismatch` where `size` has a negative extent or another volume
    /// than the number of elements.
    pub fn reshape(self, size: Vec<i64>) -> (tensor: Result<Tensor, CodecError>)
        ensures
            self@.wf(),
            match tensor {
                Ok(made) => {
                    &&& shape_holds(size@, self@.values.len())
                    &&& made@.kind == self@.kind
                    &&& made@.size == size@
                    &&& made@.values == self@.values
                    &&& made@.wf()
                },
                Err(e) => {
                    &&& !shape_holds(size@, self@.values.len())
                    &&& e == CodecError::ShapeMismatch
                },
            },
    {
        proof {
            use_type_invariant(&self);
            self.elements.lemma_values_hold();
        }
        Tensor::new(self.elements, size)
    }

    /// Returns the kind of the elements.
    pub fn kind(&self) -> (kind: Kind)
        ensures
            self@.wf(),
            kind == self@.kind,
    {
        proof {
            use_type_invariant(self);
            self.elements.lemma_values_hold();
        }
        self.elements.kind()
    }

    /// Returns the shape.
    pub fn size(&self) -> (size: &[i64])
        ensures
            self@.wf(),
            size@ == self@.size,
    {
        proof {
            use_type_invariant(self);
            self.elements.lemma_values_hold();
        }
        self.size.as_slice()
    }

    /// Returns the elements, flat and in row-major order.
    pub fn elements(&self) -> (elements: &Elements)
        ensures
            self@.wf(),
            elements@.kind == self@.kind,
            elements@.values == self@.values,
    {
        proof {
            use_type_invariant(self);
            self.elements.lemma_values_hold();
        }
        &self.elements
    }

    /// Returns the number of elements.
    pub fn numel(&self) -> (count: usize)
        ensures
            self@.wf(),
            count == self@.values.len(),
            count == volume(self@.size),
    {
        proof {
            use_type_invariant(self);
            self.elements.lemma_values_hold();
        }
        self.elements.len()
    }
}

} // verus!
