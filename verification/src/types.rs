//! The element types of arrays and of array files.

pub mod cast;

use vstd::prelude::*;
use crate::types::cast::Cast;

verus! {

/// The numerical types that an array file can hold. `F32` and `F64` are the
/// IEEE 754 binary formats of 32 and 64 bits, `C32` and `C64` complex
/// numbers made of two of them.
#[derive(Clone, Copy, Debug, PartialEq, Eq, Structural)]
pub enum RDSType {
    U8,
    U16,
    U32,
    U64,
    I8,
    I16,
    I32,
    I64,
    F32,
    F64,
    C32,
    C64,
}

impl RDSType {
    /// The number of bytes that one element of the type takes in a file.
    pub open spec fn width(self) -> nat {
        match self {
            RDSType::U8 | RDSType::I8 => 1,
            RDSType::U16 | RDSType::I16 => 2,
            RDSType::U32 | RDSType::I32 | RDSType::F32 => 4,
            RDSType::U64 | RDSType::I64 | RDSType::F64 | RDSType::C32 => 8,
            RDSType::C64 => 16,
        }
    }

    /// The number of bytes that one element of the type takes in a file.
    pub fn byte_width(self) -> (w: usize)
        ensures
            w == self.width(),
    {
        match self {
            RDSType::U8 | RDSType::I8 => 1,
            RDSType::U16 | RDSType::I16 => 2,
            RDSType::U32 | RDSType::I32 | RDSType::F32 => 4,
            RDSType::U64 | RDSType::I64 | RDSType::F64 | RDSType::C32 => 8,
            RDSType::C64 => 16,
        }
    }
}

/// One element as an array file holds it. An integer is held as its value.
/// A floating-point number is held as the bits of its IEEE 754 format, and
/// a complex number as the bits of its real and of its imaginary part.
#[derive(Clone, Copy, Debug, PartialEq, Eq, Structural)]
pub enum Scalar {
    U8(u8),
    U16(u16),
    U32(u32),
    U64(u64),
    I8(i8),
    I16(i16),
    I32(i32),
    I64(i64),
    F32(u32),
    F64(u64),
    C32(u32, u32),
    C64(u64, u64),
}

impl Scalar {
    /// The type of the element.
    pub open spec fn type_spec(self) -> RDSType {
        match self {
            Scalar::U8(_) => RDSType::U8,
            Scalar::U16(_) => RDSType::U16,
            Scalar::U32(_) => RDSType::U32,
            Scalar::U64(_) => RDSType::U64,
            Scalar::I8(_) => RDSType::I8,
            Scalar::I16(_) => RDSType::I16,
            Scalar::I32(_) => RDSType::I32,
            Scalar::I64(_) => RDSType::I64,
            Scalar::F32(_) => RDSType::F32,
            Scalar::F64(_) => RDSType::F64,
            Scalar::C32(_, _) => RDSType::C32,
            Scalar::C64(_, _) => RDSType::C64,
        }
    }

    /// The type of the element.
    pub fn dtype(&self) -> (t: RDSType)
        ensures
            t == self.type_spec(),
    {
        match self {
            Scalar::U8(_) => RDSType::U8,
            Scalar::U16(_) => RDSType::U16,
            Scalar::U32(_) => RDSType::U32,
            Scalar::U64(_) => RDSType::U64,
            Scalar::I8(_) => RDSType::I8,
            Scalar::I16(_) => RDSType::I16,
            Scalar::I32(_) => RDSType::I32,
            Scalar::I64(_) => RDSType::I64,
            Scalar::F32(_) => RDSType::F32,
            Scalar::F64(_) => RDSType::F64,
            Scalar::C32(_, _) => RDSType::C32,
            Scalar::C64(_, _) => RDSType::C64,
        }
    }
}

/// The element types that the library itself can convert: the integer
/// types, each of which can be cast into each of them.
pub trait RDSTyped: Copy + Cast<u8> + Cast<u16> + Cast<u32> + Cast<u64> + Cast<i8> + Cast<
    i16,
> + Cast<i32> + Cast<i64> {
    /// The type, as a value.
    spec fn type_spec() -> RDSType;

    /// Tells the type in a generic context.
    fn t() -> (r: RDSType)
        ensures
            r == Self::type_spec(),
    ;

    /// The value as an element of a file.
    spec fn scalar_spec(self) -> Scalar;

    /// The value as an element of a file, of the type `Self::t()`.
    fn to_scalar(self) -> (s: Scalar)
        ensures
            s == self.scalar_spec(),
            s.type_spec() == Self::type_spec(),
    ;

    /// The value that an integer element of a file gives by a cast; an
    /// element that holds a floating-point number gives none.
    spec fn from_scalar_spec(s: Scalar) -> Option<Self>;

    /// Casts an integer element of a file into the type.
    fn from_scalar(s: Scalar) -> (r: Option<Self>)
        ensures
            r == Self::from_scalar_spec(s),
    ;
}

impl RDSTyped for u8 {
    open spec fn type_spec() -> RDSType {
        RDSType::U8
    }

    fn t() -> (r: RDSType) {
        RDSType::U8
    }

    open spec fn scalar_spec(self) -> Scalar {
        Scalar::U8(self)
    }

    fn to_scalar(self) -> (s: Scalar) {
        Scalar::U8(self)
    }

    open spec fn from_scalar_spec(s: Scalar) -> Option<u8> {
        match s {
            Scalar::U8(v) => Some(<u8 as Cast<u8>>::cast_spec(v)),
            Scalar::U16(v) => Some(<u16 as Cast<u8>>::cast_spec(v)),
            Scalar::U32(v) => Some(<u32 as Cast<u8>>::cast_spec(v)),
            Scalar::U64(v) => Some(<u64 as Cast<u8>>::cast_spec(v)),
            Scalar::I8(v) => Some(<i8 as Cast<u8>>::cast_spec(v)),
            Scalar::I16(v) => Some(<i16 as Cast<u8>>::cast_spec(v)),
            Scalar::I32(v) => Some(<i32 as Cast<u8>>::cast_spec(v)),
            Scalar::I64(v) => Some(<i64 as Cast<u8>>::cast_spec(v)),
            _ => None,
        }
    }

    fn from_scalar(s: Scalar) -> (r: Option<u8>) {
        match s {
            Scalar::U8(v) => Some(<u8 as Cast<u8>>::cast(v)),
            Scalar::U16(v) => Some(<u16 as Cast<u8>>::cast(v)),
            Scalar::U32(v) => Some(<u32 as Cast<u8>>::cast(v)),
            Scalar::U64(v) => Some(<u64 as Cast<u8>>::cast(v)),
            Scalar::I8(v) => Some(<i8 as Cast<u8>>::cast(v)),
            Scalar::I16(v) => Some(<i16 as Cast<u8>>::cast(v)),
            Scalar::I32(v) => Some(<i32 as Cast<u8>>::cast(v)),
            Scalar::I64(v) => Some(<i64 as Cast<u8>>::cast(v)),
            _ => None,
        }
    }
}

impl RDSTyped for u16 {
    open spec fn type_spec() -> RDSType {
        RDSType::U16
    }

    fn t() -> (r: RDSType) {
        RDSType::U16
    }

    open spec fn scalar_spec(self) -> Scalar {
        Scalar::U16(self)
    }

    fn to_scalar(self) -> (s: Scalar) {
        Scalar::U16(self)
    }

    open spec fn from_scalar_spec(s: Scalar) -> Option<u16> {
        match s {
            Scalar::U8(v) => Some(<u8 as Cast<u16>>::cast_spec(v)),
            Scalar::U16(v) => Some(<u16 as Cast<u16>>::cast_spec(v)),
            Scalar::U32(v) => Some(<u32 as Cast<u16>>::cast_spec(v)),
            Scalar::U64(v) => Some(<u64 as Cast<u16>>::cast_spec(v)),
            Scalar::I8(v) => Some(<i8 as Cast<u16>>::cast_spec(v)),
            Scalar::I16(v) => Some(<i16 as Cast<u16>>::cast_spec(v)),
            Scalar::I32(v) => Some(<i32 as Cast<u16>>::cast_spec(v)),
            Scalar::I64(v) => Some(<i64 as Cast<u16>>::cast_spec(v)),
            _ => None,
        }
    }

    fn from_scalar(s: Scalar) -> (r: Option<u16>) {
        match s {
            Scalar::U8(v) => Some(<u8 as Cast<u16>>::cast(v)),
            Scalar::U16(v) => Some(<u16 as Cast<u16>>::cast(v)),
            Scalar::U32(v) => Some(<u32 as Cast<u16>>::cast(v)),
            Scalar::U64(v) => Some(<u64 as Cast<u16>>::cast(v)),
            Scalar::I8(v) => Some(<i8 as Cast<u16>>::cast(v)),
            Scalar::I16(v) => Some(<i16 as Cast<u16>>::cast(v)),
            Scalar::I32(v) => Some(<i32 as Cast<u16>>::cast(v)),
            Scalar::I64(v) => Some(<i64 as Cast<u16>>::cast(v)),
            _ => None,
        }
    }
}

impl RDSTyped for u32 {
    open spec fn type_spec() -> RDSType {
        RDSType::U32
    }

    fn t() -> (r: RDSType) {
        RDSType::U32
    }

    open spec fn scalar_spec(self) -> Scalar {
        Scalar::U32(self)
    }

    fn to_scalar(self) -> (s: Scalar) {
        Scalar::U32(self)
    }

    open spec fn from_scalar_spec(s: Scalar) -> Option<u32> {
        match s {
            Scalar::U8(v) => Some(<u8 as Cast<u32>>::cast_spec(v)),
            Scalar::U16(v) => Some(<u16 as Cast<u32>>::cast_spec(v)),
            Scalar::U32(v) => Some(<u32 as Cast<u32>>::cast_spec(v)),
            Scalar::U64(v) => Some(<u64 as Cast<u32>>::cast_spec(v)),
            Scalar::I8(v) => Some(<i8 as Cast<u32>>::cast_spec(v)),
            Scalar::I16(v) => Some(<i16 as Cast<u32>>::cast_spec(v)),
            Scalar::I32(v) => Some(<i32 as Cast<u32>>::cast_spec(v)),
            Scalar::I64(v) => Some(<i64 as Cast<u32>>::cast_spec(v)),
            _ => None,
        }
    }

    fn from_scalar(s: Scalar) -> (r: Option<u32>) {
        match s {
            Scalar::U8(v) => Some(<u8 as Cast<u32>>::cast(v)),
            Scalar::U16(v) => Some(<u16 as Cast<u32>>::cast(v)),
            Scalar::U32(v) => Some(<u32 as Cast<u32>>::cast(v)),
            Scalar::U64(v) => Some(<u64 as Cast<u32>>::cast(v)),
            Scalar::I8(v) => Some(<i8 as Cast<u32>>::cast(v)),
            Scalar::I16(v) => Some(<i16 as Cast<u32>>::cast(v)),
            Scalar::I32(v) => Some(<i32 as Cast<u32>>::cast(v)),
            Scalar::I64(v) => Some(<i64 as Cast<u32>>::cast(v)),
            _ => None,
        }
    }
}

impl RDSTyped for u64 {
    open spec fn type_spec() -> RDSType {
        RDSType::U64
    }

    fn t() -> (r: RDSType) {
        RDSType::U64
    }

    open spec fn scalar_spec(self) -> Scalar {
        Scalar::U64(self)
    }

    fn to_scalar(self) -> (s: Scalar) {
        Scalar::U64(self)
    }

    open spec fn from_scalar_spec(s: Scalar) -> Option<u64> {
        match s {
            Scalar::U8(v) => Some(<u8 as Cast<u64>>::cast_spec(v)),
            Scalar::U16(v) => Some(<u16 as Cast<u64>>::cast_spec(v)),
            Scalar::U32(v) => Some(<u32 as Cast<u64>>::cast_spec(v)),
            Scalar::U64(v) => Some(<u64 as Cast<u64>>::cast_spec(v)),
            Scalar::I8(v) => Some(<i8 as Cast<u64>>::cast_spec(v)),
            Scalar::I16(v) => Some(<i16 as Cast<u64>>::cast_spec(v)),
            Scalar::I32(v) => Some(<i32 as Cast<u64>>::cast_spec(v)),
            Scalar::I64(v) => Some(<i64 as Cast<u64>>::cast_spec(v)),
            _ => None,
        }
    }

    fn from_scalar(s: Scalar) -> (r: Option<u64>) {
        match s {
            Scalar::U8(v) => Some(<u8 as Cast<u64>>::cast(v)),
            Scalar::U16(v) => Some(<u16 as Cast<u64>>::cast(v)),
            Scalar::U32(v) => Some(<u32 as Cast<u64>>::cast(v)),
            Scalar::U64(v) => Some(<u64 as Cast<u64>>::cast(v)),
            Scalar::I8(v) => Some(<i8 as Cast<u64>>::cast(v)),
            Scalar::I16(v) => Some(<i16 as Cast<u64>>::cast(v)),
            Scalar::I32(v) => Some(<i32 as Cast<u64>>::cast(v)),
            Scalar::I64(v) => Some(<i64 as Cast<u64>>::cast(v)),
            _ => None,
        }
    }
}

impl RDSTyped for i8 {
    open spec fn type_spec() -> RDSType {
        RDSType::I8
    }

    fn t() -> (r: RDSType) {
        RDSType::I8
    }

    open spec fn scalar_spec(self) -> Scalar {
        Scalar::I8(self)
    }

    fn to_scalar(self) -> (s: Scalar) {
        Scalar::I8(self)
    }

    open spec fn from_scalar_spec(s: Scalar) -> Option<i8> {
        match s {
            Scalar::U8(v) => Some(<u8 as Cast<i8>>::cast_spec(v)),
            Scalar::U16(v) => Some(<u16 as Cast<i8>>::cast_spec(v)),
            Scalar::U32(v) => Some(<u32 as Cast<i8>>::cast_spec(v)),
            Scalar::U64(v) => Some(<u64 as Cast<i8>>::cast_spec(v)),
            Scalar::I8(v) => Some(<i8 as Cast<i8>>::cast_spec(v)),
            Scalar::I16(v) => Some(<i16 as Cast<i8>>::cast_spec(v)),
            Scalar::I32(v) => Some(<i32 as Cast<i8>>::cast_spec(v)),
            Scalar::I64(v) => Some(<i64 as Cast<i8>>::cast_spec(v)),
            _ => None,
        }
    }

    fn from_scalar(s: Scalar) -> (r: Option<i8>) {
        match s {
            Scalar::U8(v) => Some(<u8 as Cast<i8>>::cast(v)),
            Scalar::U16(v) => Some(<u16 as Cast<i8>>::cast(v)),
            Scalar::U32(v) => Some(<u32 as Cast<i8>>::cast(v)),
            Scalar::U64(v) => Some(<u64 as Cast<i8>>::cast(v)),
            Scalar::I8(v) => Some(<i8 as Cast<i8>>::cast(v)),
            Scalar::I16(v) => Some(<i16 as Cast<i8>>::cast(v)),
            Scalar::I32(v) => Some(<i32 as Cast<i8>>::cast(v)),
            Scalar::I64(v) => Some(<i64 as Cast<i8>>::cast(v)),
            _ => None,
        }
    }
}

impl RDSTyped for i16 {
    open spec fn type_spec() -> RDSType {
        RDSType::I16
    }

    fn t() -> (r: RDSType) {
        RDSType::I16
    }

    open spec fn scalar_spec(self) -> Scalar {
        Scalar::I16(self)
    }

    fn to_scalar(self) -> (s: Scalar) {
        Scalar::I16(self)
    }

    open spec fn from_scalar_spec(s: Scalar) -> Option<i16> {
        match s {
            Scalar::U8(v) => Some(<u8 as Cast<i16>>::cast_spec(v)),
            Scalar::U16(v) => Some(<u16 as Cast<i16>>::cast_spec(v)),
            Scalar::U32(v) => Some(<u32 as Cast<i16>>::cast_spec(v)),
            Scalar::U64(v) => Some(<u64 as Cast<i16>>::cast_spec(v)),
            Scalar::I8(v) => Some(<i8 as Cast<i16>>::cast_spec(v)),
            Scalar::I16(v) => Some(<i16 as Cast<i16>>::cast_spec(v)),
            Scalar::I32(v) => Some(<i32 as Cast<i16>>::cast_spec(v)),
            Scalar::I64(v) => Some(<i64 as Cast<i16>>::cast_spec(v)),
            _ => None,
        }
    }

    fn from_scalar(s: Scalar) -> (r: Option<i16>) {
        match s {
            Scalar::U8(v) => Some(<u8 as Cast<i16>>::cast(v)),
            Scalar::U16(v) => Some(<u16 as Cast<i16>>::cast(v)),
            Scalar::U32(v) => Some(<u32 as Cast<i16>>::cast(v)),
            Scalar::U64(v) => Some(<u64 as Cast<i16>>::cast(v)),
            Scalar::I8(v) => Some(<i8 as Cast<i16>>::cast(v)),
            Scalar::I16(v) => Some(<i16 as Cast<i16>>::cast(v)),
            Scalar::I32(v) => Some(<i32 as Cast<i16>>::cast(v)),
            Scalar::I64(v) => Some(<i64 as Cast<i16>>::cast(v)),
            _ => None,
        }
    }
}

impl RDSTyped for i32 {
    open spec fn type_spec() -> RDSType {
        RDSType::I32
    }

    fn t() -> (r: RDSType) {
        RDSType::I32
    }

    open spec fn scalar_spec(self) -> Scalar {
        Scalar::I32(self)
    }

    fn to_scalar(self) -> (s: Scalar) {
        Scalar::I32(self)
    }

    open spec fn from_scalar_spec(s: Scalar) -> Option<i32> {
        match s {
            Scalar::U8(v) => Some(<u8 as Cast<i32>>::cast_spec(v)),
            Scalar::U16(v) => Some(<u16 as Cast<i32>>::cast_spec(v)),
            Scalar::U32(v) => Some(<u32 as Cast<i32>>::cast_spec(v)),
            Scalar::U64(v) => Some(<u64 as Cast<i32>>::cast_spec(v)),
            Scalar::I8(v) => Some(<i8 as Cast<i32>>::cast_spec(v)),
            Scalar::I16(v) => Some(<i16 as Cast<i32>>::cast_spec(v)),
            Scalar::I32(v) => Some(<i32 as Cast<i32>>::cast_spec(v)),
            Scalar::I64(v) => Some(<i64 as Cast<i32>>::cast_spec(v)),
            _ => None,
        }
    }

    fn from_scalar(s: Scalar) -> (r: Option<i32>) {
        match s {
            Scalar::U8(v) => Some(<u8 as Cast<i32>>::cast(v)),
            Scalar::U16(v) => Some(<u16 as Cast<i32>>::cast(v)),
            Scalar::U32(v) => Some(<u32 as Cast<i32>>::cast(v)),
            Scalar::U64(v) => Some(<u64 as Cast<i32>>::cast(v)),
            Scalar::I8(v) => Some(<i8 as Cast<i32>>::cast(v)),
            Scalar::I16(v) => Some(<i16 as Cast<i32>>::cast(v)),
            Scalar::I32(v) => Some(<i32 as Cast<i32>>::cast(v)),
            Scalar::I64(v) => Some(<i64 as Cast<i32>>::cast(v)),
            _ => None,
        }
    }
}

impl RDSTyped for i64 {
    open spec fn type_spec() -> RDSType {
        RDSType::I64
    }

    fn t() -> (r: RDSType) {
        RDSType::I64
    }

    open spec fn scalar_spec(self) -> Scalar {
        Scalar::I64(self)
    }

    fn to_scalar(self) -> (s: Scalar) {
        Scalar::I64(self)
    }

    open spec fn from_scalar_spec(s: Scalar) -> Option<i64> {
        match s {
            Scalar::U8(v) => Some(<u8 as Cast<i64>>::cast_spec(v)),
            Scalar::U16(v) => Some(<u16 as Cast<i64>>::cast_spec(v)),
            Scalar::U32(v) => Some(<u32 as Cast<i64>>::cast_spec(v)),
            Scalar::U64(v) => Some(<u64 as Cast<i64>>::cast_spec(v)),
            Scalar::I8(v) => Some(<i8 as Cast<i64>>::cast_spec(v)),
            Scalar::I16(v) => Some(<i16 as Cast<i64>>::cast_spec(v)),
            Scalar::I32(v) => Some(<i32 as Cast<i64>>::cast_spec(v)),
            Scalar::I64(v) => Some(<i64 as Cast<i64>>::cast_spec(v)),
            _ => None,
        }
    }

    fn from_scalar(s: Scalar) -> (r: Option<i64>) {
        match s {
            Scalar::U8(v) => Some(<u8 as Cast<i64>>::cast(v)),
            Scalar::U16(v) => Some(<u16 as Cast<i64>>::cast(v)),
            Scalar::U32(v) => Some(<u32 as Cast<i64>>::cast(v)),
            Scalar::U64(v) => Some(<u64 as Cast<i64>>::cast(v)),
            Scalar::I8(v) => Some(<i8 as Cast<i64>>::cast(v)),
            Scalar::I16(v) => Some(<i16 as Cast<i64>>::cast(v)),
            Scalar::I32(v) => Some(<i32 as Cast<i64>>::cast(v)),
            Scalar::I64(v) => Some(<i64 as Cast<i64>>::cast(v)),
            _ => None,
        }
    }
}

/// The element of the given integer type that the value gives by a cast;
/// none for a type that holds floating-point numbers.
pub open spec fn cast_to_spec<S: RDSTyped>(v: S, dtype: RDSType) -> Option<Scalar> {
    match dtype {
        RDSType::U8 => Some(Scalar::U8(<S as Cast<u8>>::cast_spec(v))),
        RDSType::U16 => Some(Scalar::U16(<S as Cast<u16>>::cast_spec(v))),
        RDSType::U32 => Some(Scalar::U32(<S as Cast<u32>>::cast_spec(v))),
        RDSType::U64 => Some(Scalar::U64(<S as Cast<u64>>::cast_spec(v))),
        RDSType::I8 => Some(Scalar::I8(<S as Cast<i8>>::cast_spec(v))),
        RDSType::I16 => Some(Scalar::I16(<S as Cast<i16>>::cast_spec(v))),
        RDSType::I32 => Some(Scalar::I32(<S as Cast<i32>>::cast_spec(v))),
        RDSType::I64 => Some(Scalar::I64(<S as Cast<i64>>::cast_spec(v))),
        _ => None,
    }
}

/// Casts an integer into an element of the given integer type.
pub fn cast_to<S: RDSTyped>(v: S, dtype: RDSType) -> (r: Option<Scalar>)
    ensures
        r == cast_to_spec(v, dtype),
        r matches Some(s) ==> s.type_spec() == dtype,
{
    match dtype {
        RDSType::U8 => Some(Scalar::U8(<S as Cast<u8>>::cast(v))),
        RDSType::U16 => Some(Scalar::U16(<S as Cast<u16>>::cast(v))),
        RDSType::U32 => Some(Scalar::U32(<S as Cast<u32>>::cast(v))),
        RDSType::U64 => Some(Scalar::U64(<S as Cast<u64>>::cast(v))),
        RDSType::I8 => Some(Scalar::I8(<S as Cast<i8>>::cast(v))),
        RDSType::I16 => Some(Scalar::I16(<S as Cast<i16>>::cast(v))),
        RDSType::I32 => Some(Scalar::I32(<S as Cast<i32>>::cast(v))),
        RDSType::I64 => Some(Scalar::I64(<S as Cast<i64>>::cast(v))),
        _ => None,
    }
}

impl Scalar {
    /// The element as one of the given type: itself if it is of that type,
    /// the result of the cast from an integer to an integer type, and none
    /// where a floating-point number would have to be converted.
    pub open spec fn coerce_spec(self, dtype: RDSType) -> Option<Scalar> {
        if self.type_spec() == dtype {
            Some(self)
        } else {
            match self {
                Scalar::U8(v) => cast_to_spec(v, dtype),
                Scalar::U16(v) => cast_to_spec(v, dtype),
                Scalar::U32(v) => cast_to_spec(v, dtype),
                Scalar::U64(v) => cast_to_spec(v, dtype),
                Scalar::I8(v) => cast_to_spec(v, dtype),
                Scalar::I16(v) => cast_to_spec(v, dtype),
                Scalar::I32(v) => cast_to_spec(v, dtype),
                Scalar::I64(v) => cast_to_spec(v, dtype),
                _ => None,
            }
        }
    }

    /// Coerces the element to the given type.
    pub fn coerce(self, dtype: RDSType) -> (r: Option<Scalar>)
        ensures
            r == self.coerce_spec(dtype),
            r matches Some(s) ==> s.type_spec() == dtype,
    {
        if self.dtype() == dtype {
            Some(self)
        } else {
            match self {
                Scalar::U8(v) => cast_to(v, dtype),
                Scalar::U16(v) => cast_to(v, dtype),
                Scalar::U32(v) => cast_to(v, dtype),
                Scalar::U64(v) => cast_to(v, dtype),
                Scalar::I8(v) => cast_to(v, dtype),
                Scalar::I16(v) => cast_to(v, dtype),
                Scalar::I32(v) => cast_to(v, dtype),
                Scalar::I64(v) => cast_to(v, dtype),
                _ => None,
            }
        }
    }
}

} // verus!
