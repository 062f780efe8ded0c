//! Reading and writing of voxel models in a chunked, length-prefixed
//! container format.
//!
//! A file is a signature, a version and one root chunk. A chunk is a tag of
//! four bytes, the length of its content, the length of its children, the
//! content and the children, which are chunks again. The root chunk `MAIN`
//! holds, as its children, a `SIZE` and an `XYZI` chunk for each model, and
//! an `RGBA` chunk where the file has a palette of its own.
//!
//! - [`stream`] holds the byte streams that everything is read from and
//!   written to, in memory;
//! - [`chunk`] reads and writes the headers of chunks, and gives windows on
//!   their contents;
//! - [`types`] holds the records, each with its layout;
//! - [`reader`] reads a file and hands what it holds over to a builder, call
//!   by call; [`data`] holds the builder's interface and a collector;
//! - [`writer`] writes the file of a collector;
//! - [`round_trip`] shows that a file that is written is read back as it
//!   was;
//! - [`tool`] copies files, leaving out or replacing chunks.

pub mod chunk;
pub mod data;
pub mod default_palette;
pub mod endian;
pub mod image;
pub mod reader;
pub mod round_trip;
pub mod scene;
pub mod stream;
pub mod tool;
pub mod types;
pub mod writer;

pub use crate::data::VoxData;
pub use crate::reader::{from_reader, from_slice};
pub use crate::writer::{to_vec, to_writer};
