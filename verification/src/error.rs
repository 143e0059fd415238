use vstd::prelude::*;

verus! {

/// The ways a manifest document can fail to decode. Decoding is
/// all-or-nothing: any of these aborts the whole decode.
#[derive(Debug, Clone, Copy, PartialEq, Eq, Structural)]
pub enum DecodeError {
    /// The raw document is not well-formed structured data.
    MalformedInput,
    /// A field's shape matches none of its permitted encodings.
    TypeMismatch,
    /// A required key is absent from an object.
    MissingField,
    /// A key is repeated where the schema forbids it.
    DuplicateField,
    /// A key is not recognized by the schema.
    UnknownField,
    /// An enumerated field holds a value outside its known set.
    InvalidEnumValue,
}

} // verus!
