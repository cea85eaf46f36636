//! Casts between the integer element types.

use vstd::prelude::*;

verus! {

/// A cast of `Self` into `T`, with the meaning of the native numeric cast:
/// a value that the target type can hold is kept, and any other is
/// truncated to the width of the target type.
pub trait Cast<T: Copy> {
    /// The value that the cast gives.
    spec fn cast_spec(self) -> T;

    /// Casts the value.
    fn cast(self) -> (r: T)
        ensures
            r == self.cast_spec(),
    ;
}

impl Cast<u8> for u8 {
    open spec fn cast_spec(self) -> u8 {
        self as u8
    }

    fn cast(self) -> (r: u8) {
        #[verifier::truncate]
        (self as u8)
    }
}

impl Cast<u16> for u8 {
    open spec fn cast_spec(self) -> u16 {
        self as u16
    }

    fn cast(self) -> (r: u16) {
        #[verifier::truncate]
        (self as u16)
    }
}

impl Cast<u32> for u8 {
    open spec fn cast_spec(self) -> u32 {
        self as u32
    }

    fn cast(self) -> (r: u32) {
        #[verifier::truncate]
        (self as u32)
    }
}

impl Cast<u64> for u8 {
    open spec fn cast_spec(self) -> u64 {
        self as u64
    }

    fn cast(self) -> (r: u64) {
        #[verifier::truncate]
        (self as u64)
    }
}

impl Cast<i8> for u8 {
    open spec fn cast_spec(self) -> i8 {
        self as i8
    }

    fn cast(self) -> (r: i8) {
        #[verifier::truncate]
        (self as i8)
    }
}

impl Cast<i16> for u8 {
    open spec fn cast_spec(self) -> i16 {
        self as i16
    }

    fn cast(self) -> (r: i16) {
        #[verifier::truncate]
        (self as i16)
    }
}

impl Cast<i32> for u8 {
    open spec fn cast_spec(self) -> i32 {
        self as i32
    }

    fn cast(self) -> (r: i32) {
        #[verifier::truncate]
        (self as i32)
    }
}

impl Cast<i64> for u8 {
    open spec fn cast_spec(self) -> i64 {
        self as i64
    }

    fn cast(self) -> (r: i64) {
        #[verifier::truncate]
        (self as i64)
    }
}

impl Cast<u8> for u16 {
    open spec fn cast_spec(self) -> u8 {
        self as u8
    }

    fn cast(self) -> (r: u8) {
        #[verifier::truncate]
        (self as u8)
    }
}

impl Cast<u16> for u16 {
    open spec fn cast_spec(self) -> u16 {
        self as u16
    }

    fn cast(self) -> (r: u16) {
        #[verifier::truncate]
        (self as u16)
    }
}

impl Cast<u32> for u16 {
    open spec fn cast_spec(self) -> u32 {
        self as u32
    }

    fn cast(self) -> (r: u32) {
        #[verifier::truncate]
        (self as u32)
    }
}

impl Cast<u64> for u16 {
    open spec fn cast_spec(self) -> u64 {
        self as u64
    }

    fn cast(self) -> (r: u64) {
        #[verifier::truncate]
        (self as u64)
    }
}

impl Cast<i8> for u16 {
    open spec fn cast_spec(self) -> i8 {
        self as i8
    }

    fn cast(self) -> (r: i8) {
        #[verifier::truncate]
        (self as i8)
    }
}

impl Cast<i16> for u16 {
    open spec fn cast_spec(self) -> i16 {
        self as i16
    }

    fn cast(self) -> (r: i16) {
        #[verifier::truncate]
        (self as i16)
    }
}

impl Cast<i32> for u16 {
    open spec fn cast_spec(self) -> i32 {
        self as i32
    }

    fn cast(self) -> (r: i32) {
        #[verifier::truncate]
        (self as i32)
    }
}

impl Cast<i64> for u16 {
    open spec fn cast_spec(self) -> i64 {
        self as i64
    }

    fn cast(self) -> (r: i64) {
        #[verifier::truncate]
        (self as i64)
    }
}

impl Cast<u8> for u32 {
    open spec fn cast_spec(self) -> u8 {
        self as u8
    }

    fn cast(self) -> (r: u8) {
        #[verifier::truncate]
        (self as u8)
    }
}

impl Cast<u16> for u32 {
    open spec fn cast_spec(self) -> u16 {
        self as u16
    }

    fn cast(self) -> (r: u16) {
        #[verifier::truncate]
        (self as u16)
    }
}

impl Cast<u32> for u32 {
    open spec fn cast_spec(self) -> u32 {
        self as u32
    }

    fn cast(self) -> (r: u32) {
        #[verifier::truncate]
        (self as u32)
    }
}

impl Cast<u64> for u32 {
    open spec fn cast_spec(self) -> u64 {
        self as u64
    }

    fn cast(self) -> (r: u64) {
        #[verifier::truncate]
        (self as u64)
    }
}

impl Cast<i8> for u32 {
    open spec fn cast_spec(self) -> i8 {
        self as i8
    }

    fn cast(self) -> (r: i8) {
        #[verifier::truncate]
        (self as i8)
    }
}

impl Cast<i16> for u32 {
    open spec fn cast_spec(self) -> i16 {
        self as i16
    }

    fn cast(self) -> (r: i16) {
        #[verifier::truncate]
        (self as i16)
    }
}

impl Cast<i32> for u32 {
    open spec fn cast_spec(self) -> i32 {
        self as i32
    }

    fn cast(self) -> (r: i32) {
        #[verifier::truncate]
        (self as i32)
    }
}

impl Cast<i64> for u32 {
    open spec fn cast_spec(self) -> i64 {
        self as i64
    }

    fn cast(self) -> (r: i64) {
        #[verifier::truncate]
        (self as i64)
    }
}

impl Cast<u8> for u64 {
    open spec fn cast_spec(self) -> u8 {
        self as u8
    }

    fn cast(self) -> (r: u8) {
        #[verifier::truncate]
        (self as u8)
    }
}

impl Cast<u16> for u64 {
    open spec fn cast_spec(self) -> u16 {
        self as u16
    }

    fn cast(self) -> (r: u16) {
        #[verifier::truncate]
        (self as u16)
    }
}

impl Cast<u32> for u64 {
    open spec fn cast_spec(self) -> u32 {
        self as u32
    }

    fn cast(self) -> (r: u32) {
        #[verifier::truncate]
        (self as u32)
    }
}

impl Cast<u64> for u64 {
    open spec fn cast_spec(self) -> u64 {
        self as u64
    }

    fn cast(self) -> (r: u64) {
        #[verifier::truncate]
        (self as u64)
    }
}

impl Cast<i8> for u64 {
    open spec fn cast_spec(self) -> i8 {
        self as i8
    }

    fn cast(self) -> (r: i8) {
        #[verifier::truncate]
        (self as i8)
    }
}

impl Cast<i16> for u64 {
    open spec fn cast_spec(self) -> i16 {
        self as i16
    }

    fn cast(self) -> (r: i16) {
        #[verifier::truncate]
        (self as i16)
    }
}

impl Cast<i32> for u64 {
    open spec fn cast_spec(self) -> i32 {
        self as i32
    }

    fn cast(self) -> (r: i32) {
        #[verifier::truncate]
        (self as i32)
    }
}

impl Cast<i64> for u64 {
    open spec fn cast_spec(self) -> i64 {
        self as i64
    }

    fn cast(self) -> (r: i64) {
        #[verifier::truncate]
        (self as i64)
    }
}

impl Cast<u8> for i8 {
    open spec fn cast_spec(self) -> u8 {
        self as u8
    }

    fn cast(self) -> (r: u8) {
        #[verifier::truncate]
        (self as u8)
    }
}

impl Cast<u16> for i8 {
    open spec fn cast_spec(self) -> u16 {
        self as u16
    }

    fn cast(self) -> (r: u16) {
        #[verifier::truncate]
        (self as u16)
    }
}

impl Cast<u32> for i8 {
    open spec fn cast_spec(self) -> u32 {
        self as u32
    }

    fn cast(self) -> (r: u32) {
        #[verifier::truncate]
        (self as u32)
    }
}

impl Cast<u64> for i8 {
    open spec fn cast_spec(self) -> u64 {
        self as u64
    }

    fn cast(self) -> (r: u64) {
        #[verifier::truncate]
        (self as u64)
    }
}

impl Cast<i8> for i8 {
    open spec fn cast_spec(self) -> i8 {
        self as i8
    }

    fn cast(self) -> (r: i8) {
        #[verifier::truncate]
        (self as i8)
    }
}

impl Cast<i16> for i8 {
    open spec fn cast_spec(self) -> i16 {
        self as i16
    }

    fn cast(self) -> (r: i16) {
        #[verifier::truncate]
        (self as i16)
    }
}

impl Cast<i32> for i8 {
    open spec fn cast_spec(self) -> i32 {
        self as i32
    }

    fn cast(self) -> (r: i32) {
        #[verifier::truncate]
        (self as i32)
    }
}

impl Cast<i64> for i8 {
    open spec fn cast_spec(self) -> i64 {
        self as i64
    }

    fn cast(self) -> (r: i64) {
        #[verifier::truncate]
        (self as i64)
    }
}

impl Cast<u8> for i16 {
    open spec fn cast_spec(self) -> u8 {
        self as u8
    }

    fn cast(self) -> (r: u8) {
        #[verifier::truncate]
        (self as u8)
    }
}

impl Cast<u16> for i16 {
    open spec fn cast_spec(self) -> u16 {
        self as u16
    }

    fn cast(self) -> (r: u16) {
        #[verifier::truncate]
        (self as u16)
    }
}

impl Cast<u32> for i16 {
    open spec fn cast_spec(self) -> u32 {
        self as u32
    }

    fn cast(self) -> (r: u32) {
        #[verifier::truncate]
        (self as u32)
    }
}

impl Cast<u64> for i16 {
    open spec fn cast_spec(self) -> u64 {
        self as u64
    }

    fn cast(self) -> (r: u64) {
        #[verifier::truncate]
        (self as u64)
    }
}

impl Cast<i8> for i16 {
    open spec fn cast_spec(self) -> i8 {
        self as i8
    }

    fn cast(self) -> (r: i8) {
        #[verifier::truncate]
        (self as i8)
    }
}

impl Cast<i16> for i16 {
    open spec fn cast_spec(self) -> i16 {
        self as i16
    }

    fn cast(self) -> (r: i16) {
        #[verifier::truncate]
        (self as i16)
    }
}

impl Cast<i32> for i16 {
    open spec fn cast_spec(self) -> i32 {
        self as i32
    }

    fn cast(self) -> (r: i32) {
        #[verifier::truncate]
        (self as i32)
    }
}

impl Cast<i64> for i16 {
    open spec fn cast_spec(self) -> i64 {
        self as i64
    }

    fn cast(self) -> (r: i64) {
        #[verifier::truncate]
        (self as i64)
    }
}

impl Cast<u8> for i32 {
    open spec fn cast_spec(self) -> u8 {
        self as u8
    }

    fn cast(self) -> (r: u8) {
        #[verifier::truncate]
        (self as u8)
    }
}

impl Cast<u16> for i32 {
    open spec fn cast_spec(self) -> u16 {
        self as u16
    }

    fn cast(self) -> (r: u16) {
        #[verifier::truncate]
        (self as u16)
    }
}

impl Cast<u32> for i32 {
    open spec fn cast_spec(self) -> u32 {
        self as u32
    }

    fn cast(self) -> (r: u32) {
        #[verifier::truncate]
        (self as u32)
    }
}

impl Cast<u64> for i32 {
    open spec fn cast_spec(self) -> u64 {
        self as u64
    }

    fn cast(self) -> (r: u64) {
        #[verifier::truncate]
        (self as u64)
    }
}

impl Cast<i8> for i32 {
    open spec fn cast_spec(self) -> i8 {
        self as i8
    }

    fn cast(self) -> (r: i8) {
        #[verifier::truncate]
        (self as i8)
    }
}

impl Cast<i16> for i32 {
    open spec fn cast_spec(self) -> i16 {
        self as i16
    }

    fn cast(self) -> (r: i16) {
        #[verifier::truncate]
        (self as i16)
    }
}

impl Cast<i32> for i32 {
    open spec fn cast_spec(self) -> i32 {
        self as i32
    }

    fn cast(self) -> (r: i32) {
        #[verifier::truncate]
        (self as i32)
    }
}

impl Cast<i64> for i32 {
    open spec fn cast_spec(self) -> i64 {
        self as i64
    }

    fn cast(self) -> (r: i64) {
        #[verifier::truncate]
        (self as i64)
    }
}

impl Cast<u8> for i64 {
    open spec fn cast_spec(self) -> u8 {
        self as u8
    }

    fn cast(self) -> (r: u8) {
        #[verifier::truncate]
        (self as u8)
    }
}

impl Cast<u16> for i64 {
    open spec fn cast_spec(self) -> u16 {
        self as u16
    }

    fn cast(self) -> (r: u16) {
        #[verifier::truncate]
        (self as u16)
    }
}

impl Cast<u32> for i64 {
    open spec fn cast_spec(self) -> u32 {
        self as u32
    }

    fn cast(self) -> (r: u32) {
        #[verifier::truncate]
        (self as u32)
    }
}

impl Cast<u64> for i64 {
    open spec fn cast_spec(self) -> u64 {
        self as u64
    }

    fn cast(self) -> (r: u64) {
        #[verifier::truncate]
        (self as u64)
    }
}

impl Cast<i8> for i64 {
    open spec fn cast_spec(self) -> i8 {
        self as i8
    }

    fn cast(self) -> (r: i8) {
        #[verifier::truncate]
        (self as i8)
    }
}

impl Cast<i16> for i64 {
    open spec fn cast_spec(self) -> i16 {
        self as i16
    }

    fn cast(self) -> (r: i16) {
        #[verifier::truncate]
        (self as i16)
    }
}

impl Cast<i32> for i64 {
    open spec fn cast_spec(self) -> i32 {
        self as i32
    }

    fn cast(self) -> (r: i32) {
        #[verifier::truncate]
        (self as i32)
    }
}

impl Cast<i64> for i64 {
    open spec fn cast_spec(self) -> i64 {
        self as i64
    }

    fn cast(self) -> (r: i64) {
        #[verifier::truncate]
        (self as i64)
    }
}

} // verus!
