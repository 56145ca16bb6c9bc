//! Wire-level classification of protobuf fields, with the packing rule proto3 applies.

use vstd::prelude::*;

verus! {

/// Scalar/wire kind of a protobuf field, in the descriptor's full vocabulary.
pub enum FieldKind {
    Double,
    Float,
    Int32,
    Int64,
    UInt32,
    UInt64,
    SInt32,
    SInt64,
    Fixed32,
    Fixed64,
    SFixed32,
    SFixed64,
    Bool,
    String,
    Bytes,
    /// Full name of the message type, without leading dot.
    Message(String),
    /// Full name of the enum type, without leading dot.
    Enum(String),
}

impl FieldKind {
    /// Whether repeated fields of this kind are packable (proto3 packs them by default): every
    /// scalar and enum kind, never a string, bytes or message.
    pub fn packable(&self) -> (b: bool)
        ensures
            b == !(self is String || self is Bytes || self is Message),
    {
        match self {
            FieldKind::String | FieldKind::Bytes | FieldKind::Message(_) => false,
            _ => true,
        }
    }
}

} // verus!
