//! The primitives of DER, the canonical binary encoding of ASN.1: length
//! headers, tag octets and the INTEGER encoding of the fixed-width integer
//! types.
//!
//! A value of the library is written as tag, length, value (TLV). Encoding
//! always gives the shortest form. Decoding reads a prefix of its input and
//! accepts longer forms of the same value.
//!
//! - `error`: the failures.
//! - `codec`: the two traits, `DerSerialize` and `DerDeserialize`.
//! - `big_endian`: numbers as octet strings, most significant octet first.
//! - `length`: the length header.
//! - `tag`: the tag octet.
//! - `integer`: the INTEGER codec of `u8` to `u128` and `i8` to `i128`.

pub mod big_endian;
pub mod codec;
pub mod error;
pub mod integer;
pub mod length;
pub mod tag;

pub use codec::{DerDeserialize, DerSerialize};
pub use error::DerError;
pub use length::Length;
pub use tag::{Tag, BIT_STRING, BOOLEAN, INTEGER, NULL, OBJECT_IDENTIFIER, OCTET_STRING};
