//! Reader for the tab-state files that a text editor keeps for each open tab:
//! header, content block, configuration flags and the log of unsaved edits,
//! replayed over the saved text.

pub mod types;
pub mod reader;
pub mod text;
pub mod chunks;
pub mod tabstate;
pub mod laws;

pub use chunks::{apply_chunk, replay, Chunk};
pub use types::{CRType, ChunkApplyError, Encoding, ParseError};
pub use reader::ByteReader;
pub use tabstate::{ConfigBlock, TabState};
pub use text::{checksum, decode_utf16, hex_string};
