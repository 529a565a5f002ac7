//! The errors of the library.

use vstd::prelude::*;

verus! {

/// The error that `std::time::SystemTime::duration_since` returns. Nothing is
/// known of a value of it; it is only carried to the caller.
#[verifier::external_type_specification]
#[verifier::external_body]
pub struct ExSystemTimeError(std::time::SystemTimeError);

/// The error of std's I/O. Nothing is known of a value of it; it is only
/// carried to the caller.
#[verifier::external_type_specification]
#[verifier::external_body]
pub struct ExIoError(std::io::Error);

/// Everything that can go wrong in this library.
#[allow(non_camel_case_types)]
#[derive(Debug)]
pub enum Error {
    /// The buffer is shorter than the fixed header and the CSRC list it declares.
    errHeaderSizeInsufficient,
    /// The buffer is shorter than the extension block that the header declares.
    errHeaderSizeInsufficientForExtension,
    /// Fewer bytes are left than an encoded field needs.
    errTooSmall,
    /// An extension was asked of a header whose extension flag is not set.
    errHeaderExtensionsNotEnabled,
    /// The header holds no extension with the id asked for.
    errHeaderExtensionNotFound,
    /// The id of a one-byte extension must be between 1 and 14.
    errRFC8285OneByteHeaderIDRange,
    /// The payload of a one-byte extension must hold 16 bytes or less.
    errRFC8285OneByteHeaderSize,
    /// The id of a two-byte extension must be between 1 and 255.
    errRFC8285TwoByteHeaderIDRange,
    /// The payload of a two-byte extension must hold 255 bytes or less.
    errRFC8285TwoByteHeaderSize,
    /// The id of the extension of a header with a generic profile must be 0.
    errRFC3550HeaderIDRange,
    /// The payload of a generic extension must be a whole number of 32-bit words.
    HeaderExtensionPayloadNot32BitWords,
    /// An audio level does not fit its field.
    AudioLevelOverflow,
    /// A payload is shorter than its format allows.
    PayloadIsNotLargeEnough,
    /// A STAP-A unit declares a size (first) larger than the buffer (second).
    StapASizeLargerThanBuffer(usize, usize),
    /// A NAL unit of a type that is not handled.
    NaluTypeIsNotHandled(u8),
    /// The system clock stands before the Unix epoch.
    SystemTime(std::time::SystemTimeError),
    /// An I/O error of a collaborator.
    Io(std::io::Error),
}

} // verus!
