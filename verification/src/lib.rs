//! A verified columnar encode/decode engine.
//!
//! Native record values (scalars, optionals, byte strings, lists, records,
//! tagged unions) are appended through a [`serialize::Builder`] into an
//! immutable [`column::Column`]: one value buffer per scalar slot, a lazily
//! allocated validity bitmap for nullable slots, offset buffers for
//! variable-length slots, and type-id/offset buffers for tagged unions.
//! A sealed column is read back, validity- and offset-aware, by
//! [`deserialize::decode`], after a structural check of the column's data
//! type against the expected [`schema::DataType`].

#![verifier::loop_isolation(false)]

use vstd::prelude::*;

pub mod column;
pub mod deserialize;
pub mod field;
pub mod laws;
pub mod schema;
pub mod serialize;
pub mod slicing;
pub mod value;

verus! {

/// Error raised while deriving a [`schema::DataType`] from a [`schema::Shape`].
#[derive(Clone, Copy, PartialEq, Eq, Structural, Debug)]
pub enum ShapeError {
    /// Two directly nested optional layers: the columnar model has exactly one
    /// validity bit per position, so the nesting is ambiguous.
    AmbiguousNesting,
    /// A shape with no columnar mapping: an optional union (a union column has
    /// no validity bitmap), an empty record or union, or a zero fixed size.
    UnsupportedShape,
}

/// Error raised while appending a value to a builder.
#[derive(Clone, Copy, PartialEq, Eq, Structural, Debug)]
pub enum EncodeError {
    /// The value's variant does not match the column's data type.
    TypeMismatch,
    /// A missing value was appended to a slot that is not nullable, or to a
    /// union slot (a union column has no validity bitmap).
    NullNotAllowed,
    /// A fixed-size list or fixed-size binary value whose length differs from
    /// the declared size.
    FixedSizeMismatch,
    /// A tagged value whose tag is not a variant of the union.
    InvalidTag,
}

/// Error raised while decoding a column.
#[derive(Clone, Copy, PartialEq, Eq, Structural, Debug)]
pub enum SchemaError {
    /// The column's embedded data type differs structurally from the expected
    /// data type.
    SchemaMismatch,
}

} // verus!
