use vstd::prelude::*;

verus! {

/// A coercion was attempted but the value is structurally unable to satisfy it:
/// non-numeric text read as an integer, non-UTF-8 bytes read as text, or an
/// amount outside the 64-bit signed range.
#[derive(Clone, Copy, PartialEq, Eq, Structural, Debug)]
pub enum TypeConversionError {
    ParseIntError,
    FromUtf8Error,
    TryFromIntError,
    IntegerOverflow,
}

/// The stored variant can never satisfy the requested shape, split by how the
/// value was requested: by value, by shared reference, or by mutable reference.
#[derive(Clone, Copy, PartialEq, Eq, Structural, Debug)]
pub enum TypeConversionImpossible {
    IncompatibleTypes,
    AsReference,
    AsMutable,
}

/// Every failure a typed accessor or mutator can report.
#[derive(Clone, Copy, PartialEq, Eq, Structural, Debug)]
pub enum ValueError {
    TypeConversionImpossible(TypeConversionImpossible),
    TypeConversionError(TypeConversionError),
}

pub open spec fn incompatible() -> ValueError {
    ValueError::TypeConversionImpossible(TypeConversionImpossible::IncompatibleTypes)
}

pub open spec fn as_reference_error() -> ValueError {
    ValueError::TypeConversionImpossible(TypeConversionImpossible::AsReference)
}

pub open spec fn as_mutable_error() -> ValueError {
    ValueError::TypeConversionImpossible(TypeConversionImpossible::AsMutable)
}

pub open spec fn parse_int_error() -> ValueError {
    ValueError::TypeConversionError(TypeConversionError::ParseIntError)
}

pub open spec fn from_utf8_error() -> ValueError {
    ValueError::TypeConversionError(TypeConversionError::FromUtf8Error)
}

pub open spec fn try_from_int_error() -> ValueError {
    ValueError::TypeConversionError(TypeConversionError::TryFromIntError)
}

pub open spec fn integer_overflow_error() -> ValueError {
    ValueError::TypeConversionError(TypeConversionError::IntegerOverflow)
}

} // verus!
