//! The closed set of element representations a matrix can hold.
use vstd::prelude::*;

verus! {

/// Width selector of the elements: single- or double-precision floating point.
#[derive(Clone, Copy, Debug, PartialEq, Eq, Structural)]
pub enum FloatType {
    Single,
    Double,
}

impl FloatType {
    /// Width in bytes of one element of this representation.
    pub open spec fn width(self) -> nat {
        match self {
            FloatType::Single => 4,
            FloatType::Double => 8,
        }
    }

    /// Tag byte stored in the header for this representation.
    pub open spec fn tag(self) -> u8 {
        match self {
            FloatType::Single => 0,
            FloatType::Double => 1,
        }
    }

    /// Whether the bit pattern `bits` is one element of this representation:
    /// a single-precision element has only 32 bits.
    pub open spec fn fits_bits(self, bits: u64) -> bool {
        self is Double || bits < 0x1_0000_0000
    }

    pub fn get_width(&self) -> (r: usize)
        ensures
            r == self.width(),
    {
        match *self {
            FloatType::Single => 4,
            FloatType::Double => 8,
        }
    }

    pub fn get_tag(&self) -> (r: u8)
        ensures
            r == self.tag(),
    {
        match *self {
            FloatType::Single => 0,
            FloatType::Double => 1,
        }
    }
}

/// An element kind bound at compile time, which describes itself by the
/// runtime tag stored in the header.
pub trait SupportedType {
    spec fn float_type() -> FloatType;

    fn get_float_type() -> (r: FloatType)
        ensures
            r == Self::float_type(),
    ;
}

/// Single-precision elements (four bytes each).
pub struct SinglePrecision;

/// Double-precision elements (eight bytes each).
pub struct DoublePrecision;

impl SupportedType for SinglePrecision {
    open spec fn float_type() -> FloatType {
        FloatType::Single
    }

    fn get_float_type() -> (r: FloatType) {
        FloatType::Single
    }
}

impl SupportedType for DoublePrecision {
    open spec fn float_type() -> FloatType {
        FloatType::Double
    }

    fn get_float_type() -> (r: FloatType) {
        FloatType::Double
    }
}

} // verus!
