//! The kinds of element that a tensor can hold, with their tags and widths.

use vstd::prelude::*;

use crate::error::CodecError;

verus! {

/// The kind of element that a tensor holds.
#[derive(Debug, Copy, Clone, PartialEq, Eq, Structural)]
pub enum Kind {
    Uint8,
    Int8,
    Int16,
    Int,
    Int64,
    Half,
    Float,
    Double,
    ComplexHalf,
    ComplexFloat,
    ComplexDouble,
    Bool,
}

/// The largest tag that stands for a kind.
pub const MAX_TAG: libc::c_int = 11;

impl Kind {
    /// The stable integer tag of this kind.
    pub open spec fn tag(self) -> int {
        match self {
            Kind::Uint8 => 0,
            Kind::Int8 => 1,
            Kind::Int16 => 2,
            Kind::Int => 3,
            Kind::Int64 => 4,
            Kind::Half => 5,
            Kind::Float => 6,
            Kind::Double => 7,
            Kind::ComplexHalf => 8,
            Kind::ComplexFloat => 9,
            Kind::ComplexDouble => 10,
            Kind::Bool => 11,
        }
    }

    /// The kind that a tag stands for, if it stands for one.
    pub open spec fn of_tag(tag: int) -> Option<Kind> {
        if tag == 0 {
            Some(Kind::Uint8)
        } else if tag == 1 {
            Some(Kind::Int8)
        } else if tag == 2 {
            Some(Kind::Int16)
        } else if tag == 3 {
            Some(Kind::Int)
        } else if tag == 4 {
            Some(Kind::Int64)
        } else if tag == 5 {
            Some(Kind::Half)
        } else if tag == 6 {
            Some(Kind::Float)
        } else if tag == 7 {
            Some(Kind::Double)
        } else if tag == 8 {
            Some(Kind::ComplexHalf)
        } else if tag == 9 {
            Some(Kind::ComplexFloat)
        } else if tag == 10 {
            Some(Kind::ComplexDouble)
        } else if tag == 11 {
            Some(Kind::Bool)
        } else {
            None
        }
    }

    /// The number of bytes that one element of this kind takes.
    pub open spec fn width(self) -> nat {
        match self {
            Kind::Uint8 | Kind::Int8 | Kind::Bool => 1,
            Kind::Int16 | Kind::Half => 2,
            Kind::Int | Kind::Float | Kind::ComplexHalf => 4,
            Kind::Int64 | Kind::Double | Kind::ComplexFloat => 8,
            Kind::ComplexDouble => 16,
        }
    }

    /// Whether the codec can write and read elements of this kind.
    pub open spec fn supported(self) -> bool {
        self == Kind::Uint8 || self == Kind::Int || self == Kind::Int64 || self == Kind::Float
            || self == Kind::Double
    }

    /// Returns the stable integer tag of this kind.
    pub fn c_int(self) -> (tag: libc::c_int)
        ensures
            tag == self.tag(),
            0 <= tag <= MAX_TAG,
    {
        match self {
            Kind::Uint8 => 0,
            Kind::Int8 => 1,
            Kind::Int16 => 2,
            Kind::Int => 3,
            Kind::Int64 => 4,
            Kind::Half => 5,
            Kind::Float => 6,
            Kind::Double => 7,
            Kind::ComplexHalf => 8,
            Kind::ComplexFloat => 9,
            Kind::ComplexDouble => 10,
            Kind::Bool => 11,
        }
    }

    /// Returns the kind that `v` stands for, or `UnknownKind` with the tag
    /// where it stands for none.
    pub fn of_c_int(v: libc::c_int) -> (kind: Result<Kind, CodecError>)
        ensures
            kind == match Kind::of_tag(v as int) {
                Some(k) => Ok::<Kind, CodecError>(k),
                None => Err::<Kind, CodecError>(CodecError::UnknownKind(v)),
            },
            kind is Ok <==> 0 <= v <= MAX_TAG,
    {
        match v {
            0 => Ok(Kind::Uint8),
            1 => Ok(Kind::Int8),
            2 => Ok(Kind::Int16),
            3 => Ok(Kind::Int),
            4 => Ok(Kind::Int64),
            5 => Ok(Kind::Half),
            6 => Ok(Kind::Float),
            7 => Ok(Kind::Double),
            8 => Ok(Kind::ComplexHalf),
            9 => Ok(Kind::ComplexFloat),
            10 => Ok(Kind::ComplexDouble),
            11 => Ok(Kind::Bool),
            _ => Err(CodecError::UnknownKind(v)),
        }
    }

    /// Returns the number of bytes that one element of this kind takes.
    pub fn elt_size_in_bytes(self) -> (size: usize)
        ensures
            size == self.width(),
    {
        match self {
            Kind::Uint8 => 1,
            Kind::Int8 => 1,
            Kind::Int16 => 2,
            Kind::Int => 4,
            Kind::Int64 => 8,
            Kind::Half => 2,
            Kind::Float => 4,
            Kind::Double => 8,
            Kind::ComplexHalf => 4,
            Kind::ComplexFloat => 8,
            Kind::ComplexDouble => 16,
            Kind::Bool => 1,
        }
    }

    /// Returns whether the codec can write and read elements of this kind.
    pub fn is_supported(self) -> (yes: bool)
        ensures
            yes == self.supported(),
    {
        match self {
            Kind::Uint8 | Kind::Int | Kind::Int64 | Kind::Float | Kind::Double => true,
            _ => false,
        }
    }
}

/// A native element type, bound to the kind of a tensor that holds it.
pub trait T {
    /// The kind of a tensor whose elements have this type.
    spec fn element_kind() -> Kind;

    /// Returns the kind of a tensor whose elements have this type.
    fn kind() -> (kind: Kind)
        ensures
            kind == Self::element_kind(),
    ;
}

impl T for u8 {
    open spec fn element_kind() -> Kind {
        Kind::Uint8
    }

    fn kind() -> (kind: Kind) {
        Kind::Uint8
    }
}

impl T for i8 {
    open spec fn element_kind() -> Kind {
        Kind::Int8
    }

    fn kind() -> (kind: Kind) {
        Kind::Int8
    }
}

impl T for i16 {
    open spec fn element_kind() -> Kind {
        Kind::Int16
    }

    fn kind() -> (kind: Kind) {
        Kind::Int16
    }
}

impl T for i32 {
    open spec fn element_kind() -> Kind {
        Kind::Int
    }

    fn kind() -> (kind: Kind) {
        Kind::Int
    }
}

impl T for i64 {
    open spec fn element_kind() -> Kind {
        Kind::Int64
    }

    fn kind() -> (kind: Kind) {
        Kind::Int64
    }
}

impl T for bool {
    open spec fn element_kind() -> Kind {
        Kind::Bool
    }

    fn kind() -> (kind: Kind) {
        Kind::Bool
    }
}

/// Every tag from 0 to `MAX_TAG` stands for exactly one kind, whose tag it
/// is, and no other tag stands for a kind.
pub proof fn lemma_tag_round_trip(tag: int)
    ensures
        0 <= tag <= MAX_TAG <==> Kind::of_tag(tag) is Some,
        Kind::of_tag(tag) matches Some(kind) ==> kind.tag() == tag,
{
}

/// Every kind is the kind that its own tag stands for, and its tag lies
/// between 0 and `MAX_TAG`.
pub proof fn lemma_kind_round_trip(kind: Kind)
    ensures
        Kind::of_tag(kind.tag()) == Some(kind),
        0 <= kind.tag() <= MAX_TAG,
{
}

} // verus!
