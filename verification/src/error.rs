use vstd::prelude::*;

verus! {

/// Every way a CRX byte stream can be rejected. Decoding is all-or-nothing:
/// the first failure aborts the whole file.
#[derive(Debug, Clone, Copy, PartialEq, Eq, Structural)]
pub enum CrxDecodeError {
    /// The stream does not open with the four signature bytes `CRXG`.
    CrxSignatureInvalid,
    /// The container version is not 1, 2 or 3; carries the offending value.
    VersionNotSupported(u16),
    /// A version-2/3 row starts with a filter-mode byte outside 0..=4.
    InvalidRowDecodeMode(u8),
    /// Filter mode 1, 2 or 3 was selected on the first row.
    NoPreviousRow,
    /// A mode-4 run-length count exceeds the pixels left in the row.
    RowOverflow,
    /// An 8-bpp palette index is not below the palette length;
    /// carries the palette length and the index.
    BadPaletteIndex(usize, usize),
    /// The input ended before a required read.
    ShortRead,
    /// The version-2/3 payload is not a well-formed zlib stream.
    MalformedDeflate,
    /// The pixel buffer size does not fit the machine's address space.
    BufferTooLarge,
    /// The header declares a zero width or height.
    InvalidDimensions,
}

/// Every way a decoded image can fail to become a generic image container.
#[derive(Debug, Clone, Copy, PartialEq, Eq, Structural)]
pub enum CrxImageConvertError {
    /// The pixel buffer length does not match the dimensions.
    InvalidRawBuffer,
    /// The stored bits-per-pixel is neither 24 nor 32; carries the value.
    InvalidBPP(usize),
}

} // verus!
