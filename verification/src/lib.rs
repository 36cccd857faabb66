//! Support for a file-copying tool on POSIX systems: paths as sequences of
//! components, resolution of a path whose last component need not exist,
//! and classification of directory entries by their mode.
//!
//! Nothing here touches the file system. Functions that depend on what the
//! environment reports take that report as an argument.

pub mod error;
pub mod file_type;
pub mod mode;
pub mod parse;
pub mod path;
pub mod render;
pub mod resolve;
pub mod text;

pub use error::Error;
pub use error::ErrorKind;
pub use path::Component;
pub use path::Name;
pub use path::PosixPath;
pub use path::Segment;
pub use resolve::assemble;
pub use resolve::complete;
pub use resolve::semicanonicalize;
pub use resolve::Step;
pub use file_type::classify;
pub use file_type::file_type;
pub use file_type::FileType;
pub use file_type::Metadata;
pub use mode::fifo_mode;
