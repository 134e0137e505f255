//! The three fields of a record, and their names.

use vstd::prelude::*;
use vstd::string::StringSliceAdditionalSpecFns;

use crate::error::CodecError;

verus! {

/// One of the three fields of a record.
#[derive(Debug, Copy, Clone, PartialEq, Eq, Structural)]
pub enum Field {
    Kind,
    Size,
    Data,
}

/// The name under which a field stands in a record.
pub open spec fn field_name(field: Field) -> Seq<char> {
    match field {
        Field::Kind => seq!['k', 'i', 'n', 'd'],
        Field::Size => seq!['s', 'i', 'z', 'e'],
        Field::Data => seq!['d', 'a', 't', 'a'],
    }
}

/// The field that stands under a name, if one does.
pub open spec fn field_named(name: Seq<char>) -> Option<Field> {
    if name == field_name(Field::Kind) {
        Some(Field::Kind)
    } else if name == field_name(Field::Size) {
        Some(Field::Size)
    } else if name == field_name(Field::Data) {
        Some(Field::Data)
    } else {
        None
    }
}

/// Each field stands under its own name, and under no other.
pub proof fn lemma_field_names(field: Field, name: Seq<char>)
    ensures
        field_named(field_name(field)) == Some(field),
        field_named(name) == Some(field) ==> name == field_name(field),
{
    assert(field_name(Field::Kind)[0] == 'k');
    assert(field_name(Field::Size)[0] == 's');
    assert(field_name(Field::Data)[0] == 'd');
}

impl Field {
    /// Returns the name under which this field stands in a record.
    pub fn name(self) -> (name: &'static str)
        ensures
            name@ == field_name(self),
    {
        proof {
            reveal_strlit("kind");
            reveal_strlit("size");
            reveal_strlit("data");
        }
        match self {
            Field::Kind => {
                assert("kind"@ =~= field_name(Field::Kind));
                "kind"
            },
            Field::Size => {
                assert("size"@ =~= field_name(Field::Size));
                "size"
            },
            Field::Data => {
                assert("data"@ =~= field_name(Field::Data));
                "data"
            },
        }
    }

    /// Returns the field that stands under a name, or fails with
    /// `UnknownField` where none does.
    pub fn from_name(name: &str) -> (field: Result<Field, CodecError>)
        ensures
            field == match field_named(name@) {
                Some(found) => Ok::<Field, CodecError>(found),
                None => Err::<Field, CodecError>(CodecError::UnknownField),
            },
    {
        if !name.is_ascii() {
            assert(field_named(name@) is None) by {
                if field_named(name@) is Some {
                    assert(forall|i: int| 0 <= i < 4 ==> (name@[i] as nat) < 128);
                }
            }
            return Err(CodecError::UnknownField);
        }
        let bytes = name.as_bytes();
        proof {
            vstd::string::is_ascii_spec_bytes(name);
        }
        if bytes.len() != 4 {
            return Err(CodecError::UnknownField);
        }
        let b0 = bytes[0];
        let b1 = bytes[1];
        let b2 = bytes[2];
        let b3 = bytes[3];
        // The names, letter by letter, in ASCII.
        let found = if b0 == 107 && b1 == 105 && b2 == 110 && b3 == 100 {
            Some(Field::Kind)
        } else if b0 == 115 && b1 == 105 && b2 == 122 && b3 == 101 {
            Some(Field::Size)
        } else if b0 == 100 && b1 == 97 && b2 == 116 && b3 == 97 {
            Some(Field::Data)
        } else {
            None
        };
        proof {
            assert(forall|i: int| 0 <= i < 4 ==> (#[trigger] name@[i] as nat) < 128);
            if let Some(field) = found {
                assert(name@ =~= field_name(field));
            }
            lemma_field_names(Field::Kind, name@);
        }
        match found {
            Some(field) => Ok(field),
            None => Err(CodecError::UnknownField),
        }
    }
}

} // verus!
