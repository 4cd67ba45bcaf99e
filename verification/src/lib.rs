//! Codec for the Internet Printing Protocol binary attribute format:
//! tag tables, the tagged value type with its byte-level reader and writer,
//! the grouped attribute store with its serializer, and the stream parser
//! that reconstructs grouped attributes (including nested collections) from
//! a byte stream.

pub mod attribute;
pub mod client;
pub mod display;
pub mod laws;
pub mod parser;
pub mod tags;
pub mod value;
pub mod wire;

use vstd::prelude::*;

verus! {

/// An error of the attribute layer: serialization and request building.
#[derive(Clone, Copy, Debug, PartialEq, Eq, Structural)]
pub enum IppError {
    /// A request was not well formed: a protocol-mandatory header
    /// attribute is missing from the operation group.
    RequestError,
    /// An operation ended with a non-success status code.
    StatusError(u16),
    /// The byte stream did not parse.
    ParseError(crate::parser::ParseError),
    /// An expected attribute is missing from a response.
    MissingAttribute,
    /// An attribute held a value of an unexpected kind.
    InvalidAttributeType,
}

} // verus!
