//! The error taxonomy shared by catalog validation and the codecs.

use vstd::prelude::*;

verus! {

/// Every way in which building a codec from the type catalog, or running a
/// decode or encode against actual bytes, can fail.
///
/// Validation-time failures (`UnsupportedBitfield`, `UnsupportedIntegerEncoding`,
/// `UnsupportedFloatSize`, `UnsupportedEnumSize`, `MalformedTypeGraph`) abort a
/// whole generation run; the remaining variants are returned by `decode` and
/// `encode` at the point of use.
#[derive(Debug, Clone, Copy, PartialEq, Eq, Structural)]
pub enum CodecError {
    /// A decode input whose length differs from the type's declared byte size.
    LengthMismatch,
    /// A member or integer that is not aligned to whole bytes.
    UnsupportedBitfield,
    /// An integer bit-width/encoding pair outside the supported set.
    UnsupportedIntegerEncoding,
    /// A floating-point byte width other than 4 or 8.
    UnsupportedFloatSize,
    /// An enumeration byte size other than 1, 2, 4 or 8.
    UnsupportedEnumSize,
    /// A fixed-capacity text field with no zero byte inside its window.
    MissingTerminator,
    /// Text bytes that are not valid UTF-8.
    InvalidText,
    /// A text value that does not fit its capacity together with its terminator.
    TextTooLong,
    /// A decoded integer that matches no variant of the enumeration.
    InvalidEnumValue,
    /// A qualifier cycle, a dangling type id, a reference to a type that has no
    /// codec, or a layout that cannot describe real memory (a member window
    /// outside its struct, a size beyond the address space).
    MalformedTypeGraph,
}

} // verus!
