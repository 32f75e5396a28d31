use vstd::prelude::*;

verus! {

/// Everything that can go wrong while decoding a blueprint byte stream.
///
/// Each variant records the byte offset at which the problem was detected;
/// variants that concern a span of the input (a string, a property name)
/// carry the half-open byte range of that span instead of a copy of it.
#[derive(Debug, Clone, Copy, PartialEq, Eq, Structural)]
pub enum ParseError {
    /// Fewer bytes were left than the field starting at `offset` requires.
    UnexpectedEndOfInput { offset: usize },
    /// The byte at `offset` had to be the literal `expected`, but was `actual`.
    TagMismatch { offset: usize, expected: u8, actual: u8 },
    /// The string content at `start..end` is not valid UTF-8.
    InvalidUtf8 { start: usize, end: usize },
    /// The property type tag at `start..end` names no known property kind.
    UnknownPropertyKind { start: usize, end: usize },
    /// A redundant size field at `offset` disagrees with its counterpart:
    /// the value read was `actual` where `expected` was required.
    CorruptFraming { offset: usize, expected: u64, actual: u64 },
    /// The property whose name spans `name_start..name_end` declared a size
    /// of `expected` bytes but its body occupied `actual` bytes.
    PropertySizeMismatch { name_start: usize, name_end: usize, expected: u32, actual: u32 },
    /// The body framing version field at `offset` held `value`, which is
    /// neither of the two defined version markers.
    UnknownHeaderVersion { offset: usize, value: u32 },
    /// The compressed payload beginning at `offset` could not be decompressed,
    /// or decompressed to a length other than the declared one.
    CompressionError { offset: usize },
}

} // verus!
