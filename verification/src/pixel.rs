//! The numeric pixel types the engine is generic over.
//!
//! A pixel type supplies a zero (the default background), a one (the
//! foreground of a binary mask), value equality, and wrapping addition
//! (the accumulate merge).  The eight fixed-width integer types implement
//! it; each executable method is proved against the spec-level value.

use vstd::prelude::*;

verus! {

/// A numeric pixel type.
pub trait PixelValue: Copy + Sized {
    /// The result of wrapping addition, as contracts see it.
    spec fn wrap_add(self, other: Self) -> Self;

    /// The type's zero, as contracts see it.
    spec fn zero_spec() -> Self;

    /// The type's one, as contracts see it.
    spec fn one_spec() -> Self;

    /// Wrapping addition: the accumulate merge operation.
    fn add_wrapping(self, other: Self) -> (r: Self)
        ensures
            r == self.wrap_add(other),
    ;

    /// The zero value.
    fn zero() -> (r: Self)
        ensures
            r == Self::zero_spec(),
    ;

    /// The one value.
    fn one() -> (r: Self)
        ensures
            r == Self::one_spec(),
    ;

    /// Value equality.
    fn eq_value(self, other: Self) -> (r: bool)
        ensures
            r == (self == other),
    ;
}

impl PixelValue for u8 {
    open spec fn wrap_add(self, other: Self) -> Self {
        vstd::wrapping::u8_specs::wrapping_add(self, other)
    }

    open spec fn zero_spec() -> Self {
        0u8
    }

    open spec fn one_spec() -> Self {
        1u8
    }

    fn add_wrapping(self, other: Self) -> (r: Self) {
        self.wrapping_add(other)
    }

    fn zero() -> (r: Self) {
        0u8
    }

    fn one() -> (r: Self) {
        1u8
    }

    fn eq_value(self, other: Self) -> (r: bool) {
        self == other
    }
}

impl PixelValue for u16 {
    open spec fn wrap_add(self, other: Self) -> Self {
        vstd::wrapping::u16_specs::wrapping_add(self, other)
    }

    open spec fn zero_spec() -> Self {
        0u16
    }

    open spec fn one_spec() -> Self {
        1u16
    }

    fn add_wrapping(self, other: Self) -> (r: Self) {
        self.wrapping_add(other)
    }

    fn zero() -> (r: Self) {
        0u16
    }

    fn one() -> (r: Self) {
        1u16
    }

    fn eq_value(self, other: Self) -> (r: bool) {
        self == other
    }
}

impl PixelValue for u32 {
    open spec fn wrap_add(self, other: Self) -> Self {
        vstd::wrapping::u32_specs::wrapping_add(self, other)
    }

    open spec fn zero_spec() -> Self {
        0u32
    }

    open spec fn one_spec() -> Self {
        1u32
    }

    fn add_wrapping(self, other: Self) -> (r: Self) {
        self.wrapping_add(other)
    }

    fn zero() -> (r: Self) {
        0u32
    }

    fn one() -> (r: Self) {
        1u32
    }

    fn eq_value(self, other: Self) -> (r: bool) {
        self == other
    }
}

impl PixelValue for u64 {
    open spec fn wrap_add(self, other: Self) -> Self {
        vstd::wrapping::u64_specs::wrapping_add(self, other)
    }

    open spec fn zero_spec() -> Self {
        0u64
    }

    open spec fn one_spec() -> Self {
        1u64
    }

    fn add_wrapping(self, other: Self) -> (r: Self) {
        self.wrapping_add(other)
    }

    fn zero() -> (r: Self) {
        0u64
    }

    fn one() -> (r: Self) {
        1u64
    }

    fn eq_value(self, other: Self) -> (r: bool) {
        self == other
    }
}

impl PixelValue for i8 {
    open spec fn wrap_add(self, other: Self) -> Self {
        vstd::wrapping::i8_specs::wrapping_add(self, other)
    }

    open spec fn zero_spec() -> Self {
        0i8
    }

    open spec fn one_spec() -> Self {
        1i8
    }

    fn add_wrapping(self, other: Self) -> (r: Self) {
        self.wrapping_add(other)
    }

    fn zero() -> (r: Self) {
        0i8
    }

    fn one() -> (r: Self) {
        1i8
    }

    fn eq_value(self, other: Self) -> (r: bool) {
        self == other
    }
}

impl PixelValue for i16 {
    open spec fn wrap_add(self, other: Self) -> Self {
        vstd::wrapping::i16_specs::wrapping_add(self, other)
    }

    open spec fn zero_spec() -> Self {
        0i16
    }

    open spec fn one_spec() -> Self {
        1i16
    }

    fn add_wrapping(self, other: Self) -> (r: Self) {
        self.wrapping_add(other)
    }

    fn zero() -> (r: Self) {
        0i16
    }

    fn one() -> (r: Self) {
        1i16
    }

    fn eq_value(self, other: Self) -> (r: bool) {
        self == other
    }
}

impl PixelValue for i32 {
    open spec fn wrap_add(self, other: Self) -> Self {
        vstd::wrapping::i32_specs::wrapping_add(self, other)
    }

    open spec fn zero_spec() -> Self {
        0i32
    }

    open spec fn one_spec() -> Self {
        1i32
    }

    fn add_wrapping(self, other: Self) -> (r: Self) {
        self.wrapping_add(other)
    }

    fn zero() -> (r: Self) {
        0i32
    }

    fn one() -> (r: Self) {
        1i32
    }

    fn eq_value(self, other: Self) -> (r: bool) {
        self == other
    }
}

impl PixelValue for i64 {
    open spec fn wrap_add(self, other: Self) -> Self {
        vstd::wrapping::i64_specs::wrapping_add(self, other)
    }

    open spec fn zero_spec() -> Self {
        0i64
    }

    open spec fn one_spec() -> Self {
        1i64
    }

    fn add_wrapping(self, other: Self) -> (r: Self) {
        self.wrapping_add(other)
    }

    fn zero() -> (r: Self) {
        0i64
    }

    fn one() -> (r: Self) {
        1i64
    }

    fn eq_value(self, other: Self) -> (r: bool) {
        self == other
    }
}

} // verus!
