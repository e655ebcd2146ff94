//! Parsing and writing of DLT (Diagnostic Log and Trace) messages: the
//! header codec, framing of messages in a buffer, an iterator over
//! back-to-back messages, and a reader for the fields of verbose payloads.
pub mod codec;
pub mod error;
pub mod header;
pub mod laws;
pub mod packet;
pub mod verbose;

pub use error::{ReadError, WriteError};
pub use header::{DltHeader, ExtendedDltHeader};
pub use packet::{DltPacketSlice, SliceIterator};
