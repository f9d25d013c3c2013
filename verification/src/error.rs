//! Errors of the TM-25 reader and writer, and their mathematical model.

use vstd::prelude::*;

use crate::le::sat;

verus! {

/// Everything that can go wrong while reading or writing a TM-25 file.
///
/// The failures of the byte source or sink itself (I/O) are raised by the
/// code that owns the source; this type covers everything the format logic
/// decides.
#[derive(Debug)]
pub enum Tm25Error {
    /// The input ends before byte `needed`; `have` bytes were available.
    Truncated { needed: usize, have: usize },
    /// The first four bytes are not `TM25`.
    BadMagic([u8; 4]),
    /// A version other than 2013.
    UnsupportedVersion(i32),
    /// The ray block does not have the size the header promises.
    SizeMismatch { ray_start: usize, expected: u64, actual: u64 },
    /// A stream ended before delivering every promised ray.
    RayCountMismatch { expected: u64, actual: u64 },
    /// A header field or a combination of fields is not acceptable.
    InvalidHeader(String),
    /// A UTF-32 text field holds a value that is not a Unicode scalar value.
    InvalidText { field: &'static str, code_point: u32 },
}

/// The value of a [`Tm25Error`] in specifications: strings as character
/// sequences, the magic as a byte sequence.
pub enum ErrorModel {
    Truncated { needed: usize, have: usize },
    BadMagic(Seq<u8>),
    UnsupportedVersion(i32),
    SizeMismatch { ray_start: usize, expected: u64, actual: u64 },
    RayCountMismatch { expected: u64, actual: u64 },
    InvalidHeader(Seq<char>),
    InvalidText { field: Seq<char>, code_point: u32 },
}

impl View for Tm25Error {
    type V = ErrorModel;

    open spec fn view(&self) -> ErrorModel {
        match self {
            Tm25Error::Truncated { needed, have } => ErrorModel::Truncated {
                needed: *needed,
                have: *have,
            },
            Tm25Error::BadMagic(m) => ErrorModel::BadMagic(m@),
            Tm25Error::UnsupportedVersion(v) => ErrorModel::UnsupportedVersion(*v),
            Tm25Error::SizeMismatch { ray_start, expected, actual } => ErrorModel::SizeMismatch {
                ray_start: *ray_start,
                expected: *expected,
                actual: *actual,
            },
            Tm25Error::RayCountMismatch { expected, actual } => ErrorModel::RayCountMismatch {
                expected: *expected,
                actual: *actual,
            },
            Tm25Error::InvalidHeader(s) => ErrorModel::InvalidHeader(s@),
            Tm25Error::InvalidText { field, code_point } => ErrorModel::InvalidText {
                field: field@,
                code_point: *code_point,
            },
        }
    }
}

/// The error for a read of bytes up to offset `needed` from an input of
/// `have` bytes; `needed` saturates at `usize::MAX`.
pub open spec fn truncated(needed: int, have: int) -> ErrorModel {
    ErrorModel::Truncated { needed: sat(needed) as usize, have: have as usize }
}

} // verus!
