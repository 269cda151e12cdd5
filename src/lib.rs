//! Reading and writing SER image-sequence files: a fixed 178-byte header,
//! a run of equally sized raw frames, and an optional trailer holding one
//! UTC timestamp per frame.
pub mod bytes;
pub mod error;
pub mod file;
pub mod header;
pub mod writer;

pub use error::SerError;
pub use file::SerFile;
pub use header::{Bayer, Endianness, SerHeader, HEADER_SIZE};
pub use writer::SerWriter;
