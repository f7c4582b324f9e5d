//! A cursor-based view over a fixed-size byte buffer: sequential and
//! random-offset reads and writes of fixed-width integers in a selectable
//! byte order, with a tracked position and bounds information.

pub mod buffer;
pub mod codec;
pub mod cursor;
pub mod error;

pub use buffer::ByteSink;
pub use buffer::ByteSource;
pub use codec::ByteOrder;
pub use cursor::Cursor;
pub use error::BufferTooSmall;
