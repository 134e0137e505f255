//! A type-tagged binary codec for multidimensional numeric arrays.
//!
//! A tensor (element kind, shape, flat elements) is turned into a record of
//! three fields (kind, shape, big-endian payload) and back, without loss.

pub mod buffer;
pub mod builder;
pub mod codec;
pub mod convert;
pub mod element;
pub mod endian;
pub mod error;
pub mod field;
pub mod kind;
pub mod record;
pub mod shape;
pub mod tensor;

pub use builder::{FieldValue, RecordBuilder};
pub use error::CodecError;
pub use field::Field;
pub use kind::{Kind, T};
pub use record::Record;
pub use tensor::{Elements, Tensor};
