use vstd::prelude::*;

verus! {

/// The ways in which decoding or loading an object can fail.
#[derive(Clone, Copy, Debug, PartialEq, Eq, Structural)]
pub enum ObjectError {
    /// The envelope lacks its space or NUL delimiter, or the NUL comes first.
    HeaderFormat,
    /// The declared size is not a base-10 non-negative integer that fits a `usize`.
    SizeFormat,
    /// The content length differs from the declared size.
    SizeMismatch,
    /// Text that must be UTF-8 is not.
    Encoding,
    /// A tree record ends before its mode or name delimiter.
    TruncatedEntry,
    /// A tree record has fewer than 20 bytes of digest.
    TruncatedHash,
    /// The type tag names no known kind of object.
    UnknownObjectType,
    /// The stored bytes could not be read.
    StorageRead,
    /// The stored bytes could not be decompressed.
    Decompression,
}

impl ObjectError {
    /// A short human-readable description of the error.
    pub fn message(&self) -> (r: &'static str)
        ensures
            r@ == error_message(*self)@,
    {
        match self {
            ObjectError::HeaderFormat => "Incorrect header format",
            ObjectError::SizeFormat => "Incorrect object size",
            ObjectError::SizeMismatch => "Incorrect header length",
            ObjectError::Encoding => "Invalid UTF-8 text",
            ObjectError::TruncatedEntry => "Failed to read tree entry",
            ObjectError::TruncatedHash => "Failed to read hash",
            ObjectError::UnknownObjectType => "Unknown object type",
            ObjectError::StorageRead => "Could not read from file",
            ObjectError::Decompression => "Could not decompress object",
        }
    }
}

/// The description that `ObjectError::message` gives for each error.
pub open spec fn error_message(e: ObjectError) -> &'static str {
    match e {
        ObjectError::HeaderFormat => "Incorrect header format",
        ObjectError::SizeFormat => "Incorrect object size",
        ObjectError::SizeMismatch => "Incorrect header length",
        ObjectError::Encoding => "Invalid UTF-8 text",
        ObjectError::TruncatedEntry => "Failed to read tree entry",
        ObjectError::TruncatedHash => "Failed to read hash",
        ObjectError::UnknownObjectType => "Unknown object type",
        ObjectError::StorageRead => "Could not read from file",
        ObjectError::Decompression => "Could not decompress object",
    }
}

} // verus!
