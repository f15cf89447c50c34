//! The codes a tab carries and the errors of reading one.

use vstd::prelude::*;

verus! {

/// Encoding of the file on disk that a tab refers to.
#[derive(Clone, Copy, Debug, PartialEq, Eq, Structural)]
pub enum Encoding {
    ANSI,
    UTF16LE,
    UTF16BE,
    UTF8BOM,
    UTF8,
    UNKNOWN(u8),
}

/// Line-ending convention of the file on disk that a tab refers to.
#[derive(Clone, Copy, Debug, PartialEq, Eq, Structural)]
pub enum CRType {
    CRLF,
    CR,
    LF,
    UNKNOWN(u8),
}

/// Why a tab-state buffer could not be read.
#[derive(Clone, Copy, Debug, PartialEq, Eq, Structural)]
pub enum ParseError {
    /// The first two bytes are not the magic `NP`.
    BadSignature,
    /// A field starting at `offset` asks for `len` bytes beyond the end of the buffer.
    UnexpectedEof { offset: usize, len: u128 },
    /// A flag byte other than 0 or 1, or an integer that does not fit in 64 bits,
    /// starts at `offset`.
    InvalidValue { offset: usize },
    /// The UTF-16 text holds an unpaired surrogate at byte `offset`; `encoding`
    /// is the encoding that the tab declares, if it declares one.
    EncodingError { offset: usize, encoding: Option<Encoding> },
}

/// An edit record that does not fit the buffer it is replayed on: chunk `index`
/// asks to delete `deleted` characters at `offset` of a buffer of `buffer_len`.
#[derive(Clone, Copy, Debug, PartialEq, Eq, Structural)]
pub struct ChunkApplyError {
    pub index: usize,
    pub offset: u64,
    pub deleted: u64,
    pub buffer_len: usize,
}

} // verus!
