//! Read-only access to a FAT32 volume held in memory as one flat byte buffer.
//!
//! The crate decodes the boot sector, walks cluster chains through the file
//! allocation table, decodes short-name directory records, resolves absolute
//! paths and extracts file contents. Nothing is cached and nothing is
//! written: every call reads the buffer afresh.
//!
//! Every function carries a contract over a mathematical model of the
//! volume, the byte sequence and the geometry decoded from its first sector:
//!
//! - `layout`: little-endian integers, the boot sector, the fixed numbers of
//!   the format;
//! - `dir_entry`: the attribute byte and the 32-byte directory record;
//! - `model`: what each operation on a volume yields, as a function of its
//!   bytes, and the laws that hold of it;
//! - `volume`: `Fat32`, the view over a borrowed buffer;
//! - `text`: upper-casing, comparing and splitting strings;
//! - `path`: the segments of a path, and paths relative to a directory;
//! - `shell`: the commands of an interactive prompt;
//! - `error`: the errors.

pub mod dir_entry;
pub mod error;
pub mod layout;
pub mod model;
pub mod path;
pub mod shell;
pub mod text;
pub mod volume;

pub use dir_entry::{Attributes, DirEntry};
pub use error::FatError;
pub use volume::Fat32;
