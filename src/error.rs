use vstd::prelude::*;

verus! {

/// Why an import stops. Every variant is fatal: no partial result is given.
#[derive(Debug, Clone, Copy, PartialEq, Eq, Structural)]
pub enum PsbError {
    /// The first three bytes are neither the raw nor the wrapped magic.
    InvalidPackage,
    /// The wrapped form holds no valid zlib stream.
    InvalidCompressedData,
    /// The buffer is shorter than the fixed 40-byte header.
    TruncatedHeader,
    /// The bytecode region is negative or reaches past the buffer.
    CorruptedBytecodeBounds,
    /// A width code of the string table, or an array element-length code, is out of range.
    InvalidSizeCode,
    /// The string table, or a string, runs past the end of the buffer.
    TruncatedStringTable,
    /// A string is not valid UTF-8.
    InvalidStringEncoding,
    /// The bytecode walker needed a byte past the end of the buffer.
    TruncatedBytecode,
}

} // verus!
