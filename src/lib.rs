//! Length-prefixed message framing over a byte stream.
//!
//! Every frame on the wire is a fixed-width header, which declares the
//! payload's length, followed by exactly that many payload bytes.
pub mod buffer;
pub mod frame;
pub mod header;
pub mod msg;
pub mod queue;
pub mod read;
pub mod status;
pub mod write;

pub use frame::{FrameReader, ReadStatus};
pub use header::{CheckedHeader, HeaderError, IsHeader, LengthHeader};
pub use msg::MessageWrapper;
pub use queue::{FrameQueue, WriteError};
pub use read::{Reader, UpdateError};
pub use status::{UpdateClientStatus, UpdateStatus};
pub use write::{SeriError, Writer};
