use vstd::prelude::*;

verus! {

/// The bytes read violate the TIFF structural contract.
#[derive(Clone, Copy, Debug, PartialEq, Eq, Structural)]
pub enum FormatError {
    /// Bytes 0-1 are neither `II` nor `MM`; `found` holds them with byte 0 as the high byte.
    BadByteOrderMarker { found: u16 },
    /// Bytes 2-3, read under the detected byte order, are not 42.
    BadMagic { found: u16 },
    /// A primitive or a structure needed `needed` bytes where only `available` were left.
    Truncated { needed: u64, available: u64 },
    /// An ASCII value is not valid UTF-8.
    InvalidEncoding,
    /// A field-type code outside the twelve TIFF types.
    UnsupportedFieldType { field_type: u16 },
}

/// The remote resource could not deliver the requested bytes.
#[derive(Clone, Debug, PartialEq, Eq)]
pub enum TransportError {
    /// The transport failed; the message comes from it.
    Http(String),
    /// Fewer bytes came back than were asked for.
    ShortRead { expected: u64, received: u64 },
}

/// The directory chain is not a finite list.
#[derive(Clone, Copy, Debug, PartialEq, Eq, Structural)]
pub enum LogicError {
    /// A next-IFD pointer leads back to a directory that was already read.
    DirectoryCycle { offset: u32 },
    /// The chain holds more directories than the configured limit.
    TooManyDirectories { limit: u64 },
}

/// The single error of a document parse.
#[derive(Clone, Debug, PartialEq, Eq)]
pub enum CogErr {
    Transport(TransportError),
    Format(FormatError),
    Logic(LogicError),
}

} // verus!
