//! Errors of header decoding, frame slicing and verbose field reading.
use vstd::prelude::*;

verus! {

#[verifier::external_type_specification]
#[verifier::external_body]
pub struct ExIoError(std::io::Error);

#[verifier::external_type_specification]
#[verifier::external_body]
pub struct ExUtf8Error(core::str::Utf8Error);

/// Errors of reading a header or slicing a message out of a buffer.
#[derive(Debug)]
pub enum ReadError {
    /// The buffer is smaller than the DLT length field or the minimal size.
    UnexpectedEndOfSlice { minimum_size: usize, actual_size: usize },
    /// The DLT length is smaller than the header size that the flags give,
    /// plus the minimum payload of 4 bytes.
    LengthSmallerThenMinimum { required_length: usize, length: usize },
    /// The byte source failed or ran out of bytes.
    IoError(std::io::Error),
}

/// Errors of writing a header.
#[derive(Debug)]
pub enum WriteError {
    /// The version does not fit in the 3 bits of the header type.
    VersionTooLarge(u8),
    /// The byte sink failed.
    IoError(std::io::Error),
}

/// The protocol layer at which a verbose decoding error occurred.
#[derive(Clone, Copy, Debug, PartialEq, Eq, Hash)]
pub enum Layer {
    VerboseTypeInfo,
    VerboseValue,
}

/// A read needed more bytes than were left. Both sizes count from the start
/// of the verbose data that the reader was created for.
#[derive(Clone, Copy, Debug, PartialEq, Eq, Hash)]
pub struct UnexpectedEndOfSliceError {
    pub layer: Layer,
    pub minimum_size: usize,
    pub actual_size: usize,
}

/// Errors of reading the fields of a verbose argument.
#[derive(Clone, Copy, Debug, PartialEq, Eq)]
pub enum VerboseDecodeError {
    UnexpectedEndOfSlice(UnexpectedEndOfSliceError),
    VariableNameStringMissingNullTermination,
    VariableUnitStringMissingNullTermination,
    Utf8(core::str::Utf8Error),
}

impl From<std::io::Error> for ReadError {
    fn from(err: std::io::Error) -> (r: ReadError)
        ensures
            r == ReadError::IoError(err),
    {
        ReadError::IoError(err)
    }
}

impl vstd::std_specs::convert::FromSpecImpl<std::io::Error> for ReadError {
    open spec fn obeys_from_spec() -> bool {
        true
    }

    open spec fn from_spec(v: std::io::Error) -> ReadError {
        ReadError::IoError(v)
    }
}

impl From<std::io::Error> for WriteError {
    fn from(err: std::io::Error) -> (r: WriteError)
        ensures
            r == WriteError::IoError(err),
    {
        WriteError::IoError(err)
    }
}

impl vstd::std_specs::convert::FromSpecImpl<std::io::Error> for WriteError {
    open spec fn obeys_from_spec() -> bool {
        true
    }

    open spec fn from_spec(v: std::io::Error) -> WriteError {
        WriteError::IoError(v)
    }
}

/// Relies on `std::io::Error::from(ErrorKind::UnexpectedEof)`: the error
/// that a byte source gives when it runs out of bytes.
#[verifier::external_body]
pub(crate) fn unexpected_eof() -> (r: std::io::Error) {
    std::io::Error::from(std::io::ErrorKind::UnexpectedEof)
}

} // verus!
