//! The typed facade: mapping native types to their [`Shape`].
//!
//! [`ArrowField`] is implemented for every supported native type and for
//! the placeholder types that pick an alternative physical layout for the
//! same native value — 64-bit offsets ([`LargeString`], [`LargeBinary`],
//! [`LargeVec`]) or a fixed width ([`FixedSizeBinary`], [`FixedSizeVec`],
//! [`I128`]). A code generator or registration step hands the resulting
//! shapes to [`crate::schema::derive_field`].

use vstd::prelude::*;

use crate::ShapeError;
use crate::schema::Field;
use crate::schema::Shape;
use crate::schema::derive_field;
use crate::value::PrimKind;

verus! {

/// A native type that maps to a columnar shape.
///
/// `shape` is the machine-readable description of the type; `is_nullable`
/// holds exactly for optional types, whose values occupy one validity bit.
pub trait ArrowField {
    /// The shape of this type.
    fn shape() -> Shape;

    /// Whether a slot of this type is nullable.
    fn is_nullable() -> bool;
}

/// Marker enabling `Vec<T>` as a list field of item type `T`. Not
/// implemented for `u8`, whose `Vec<u8>` is a binary payload instead.
pub trait ArrowEnableVecForType {

}

/// Maps a 128-bit integer to a decimal column of the given precision and
/// scale.
pub struct I128<const PRECISION: usize, const SCALE: usize> {}

/// Text stored with 64-bit offsets.
pub struct LargeString {}

/// Binary payloads stored with 64-bit offsets.
pub struct LargeBinary {}

/// Binary payloads of one fixed width each.
pub struct FixedSizeBinary<const SIZE: usize> {}

/// Lists stored with 64-bit offsets.
pub struct LargeVec<T> {
    d: core::marker::PhantomData<T>,
}

/// Lists of one fixed length each.
pub struct FixedSizeVec<T, const SIZE: usize> {
    d: core::marker::PhantomData<T>,
}

/// The derived descriptor of a named slot of type `T`.
pub fn field_of<T: ArrowField>(name: &Vec<u8>) -> Result<Field, ShapeError> {
    derive_field(name, &T::shape())
}

impl ArrowField for bool {
    fn shape() -> Shape {
        Shape::Primitive(PrimKind::Bool)
    }

    fn is_nullable() -> bool {
        false
    }
}

impl ArrowField for i8 {
    fn shape() -> Shape {
        Shape::Primitive(PrimKind::Int8)
    }

    fn is_nullable() -> bool {
        false
    }
}

impl ArrowField for i16 {
    fn shape() -> Shape {
        Shape::Primitive(PrimKind::Int16)
    }

    fn is_nullable() -> bool {
        false
    }
}

impl ArrowField for i32 {
    fn shape() -> Shape {
        Shape::Primitive(PrimKind::Int32)
    }

    fn is_nullable() -> bool {
        false
    }
}

impl ArrowField for i64 {
    fn shape() -> Shape {
        Shape::Primitive(PrimKind::Int64)
    }

    fn is_nullable() -> bool {
        false
    }
}

impl ArrowField for u8 {
    fn shape() -> Shape {
        Shape::Primitive(PrimKind::UInt8)
    }

    fn is_nullable() -> bool {
        false
    }
}

impl ArrowField for u16 {
    fn shape() -> Shape {
        Shape::Primitive(PrimKind::UInt16)
    }

    fn is_nullable() -> bool {
        false
    }
}

impl ArrowField for u32 {
    fn shape() -> Shape {
        Shape::Primitive(PrimKind::UInt32)
    }

    fn is_nullable() -> bool {
        false
    }
}

impl ArrowField for u64 {
    fn shape() -> Shape {
        Shape::Primitive(PrimKind::UInt64)
    }

    fn is_nullable() -> bool {
        false
    }
}

impl<const PRECISION: usize, const SCALE: usize> ArrowField for I128<PRECISION, SCALE> {
    fn shape() -> Shape {
        Shape::Primitive(PrimKind::Decimal { precision: PRECISION, scale: SCALE })
    }

    fn is_nullable() -> bool {
        false
    }
}

impl ArrowField for LargeString {
    fn shape() -> Shape {
        Shape::LargeUtf8
    }

    fn is_nullable() -> bool {
        false
    }
}

impl ArrowField for LargeBinary {
    fn shape() -> Shape {
        Shape::LargeBinary
    }

    fn is_nullable() -> bool {
        false
    }
}

impl<const SIZE: usize> ArrowField for FixedSizeBinary<SIZE> {
    fn shape() -> Shape {
        Shape::FixedSizeBinary(SIZE)
    }

    fn is_nullable() -> bool {
        false
    }
}

impl ArrowField for Vec<u8> {
    fn shape() -> Shape {
        Shape::Binary
    }

    fn is_nullable() -> bool {
        false
    }
}

impl<T: ArrowField> ArrowField for Option<T> {
    fn shape() -> Shape {
        Shape::Optional(Box::new(T::shape()))
    }

    fn is_nullable() -> bool {
        true
    }
}

impl<T: ArrowField + ArrowEnableVecForType> ArrowField for Vec<T> {
    fn shape() -> Shape {
        Shape::List(Box::new(T::shape()))
    }

    fn is_nullable() -> bool {
        false
    }
}

impl<T: ArrowField + ArrowEnableVecForType> ArrowField for LargeVec<T> {
    fn shape() -> Shape {
        Shape::LargeList(Box::new(T::shape()))
    }

    fn is_nullable() -> bool {
        false
    }
}

impl<T: ArrowField + ArrowEnableVecForType, const SIZE: usize> ArrowField for FixedSizeVec<
    T,
    SIZE,
> {
    fn shape() -> Shape {
        Shape::FixedSizeList(Box::new(T::shape()), SIZE)
    }

    fn is_nullable() -> bool {
        false
    }
}

impl ArrowEnableVecForType for bool {

}

impl ArrowEnableVecForType for i8 {

}

impl ArrowEnableVecForType for i16 {

}

impl ArrowEnableVecForType for i32 {

}

impl ArrowEnableVecForType for i64 {

}

impl ArrowEnableVecForType for u16 {

}

impl ArrowEnableVecForType for u32 {

}

impl ArrowEnableVecForType for u64 {

}

impl ArrowEnableVecForType for LargeString {

}

impl ArrowEnableVecForType for LargeBinary {

}

impl ArrowEnableVecForType for Vec<u8> {

}

impl<const SIZE: usize> ArrowEnableVecForType for FixedSizeBinary<SIZE> {

}

impl<const PRECISION: usize, const SCALE: usize> ArrowEnableVecForType for I128<
    PRECISION,
    SCALE,
> {

}

impl<T: ArrowField + ArrowEnableVecForType> ArrowEnableVecForType for Option<T> {

}

impl<T: ArrowField + ArrowEnableVecForType> ArrowEnableVecForType for Vec<T> {

}

impl<T: ArrowField + ArrowEnableVecForType> ArrowEnableVecForType for LargeVec<T> {

}

impl<T: ArrowField + ArrowEnableVecForType, const SIZE: usize> ArrowEnableVecForType
    for FixedSizeVec<T, SIZE> {

}

/// Which halves of the codec a generated binding carries.
#[derive(Clone, Copy, PartialEq, Eq, Structural, Debug)]
pub enum TraitsToDerive {
    /// Both the append side and the read side.
    All,
    /// Only the read side.
    DeserializeOnly,
    /// Only the append side.
    SerializeOnly,
    /// Only the shape mapping.
    FieldOnly,
}

/// Which of the two engine halves a binding generates: the first component
/// asks for the append side, the second for the read side.
pub fn traits_to_derive(t: &TraitsToDerive) -> (r: (bool, bool))
    ensures
        r.0 == (*t is All || *t is SerializeOnly),
        r.1 == (*t is All || *t is DeserializeOnly),
{
    let mut gen_serialize = true;
    let mut gen_deserialize = true;
    match t {
        TraitsToDerive::All => {},
        TraitsToDerive::DeserializeOnly => {
            gen_serialize = false;
        },
        TraitsToDerive::SerializeOnly => {
            gen_deserialize = false;
        },
        TraitsToDerive::FieldOnly => {
            gen_deserialize = false;
            gen_serialize = false;
        },
    }
    (gen_serialize, gen_deserialize)
}

} // verus!
