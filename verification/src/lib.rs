//! A write-once, read-many key-value cache engine.
//!
//! A writer collects a batch of typed key/value entries in a fixed-capacity
//! hash table, serializes the table to an immutable cache image, and names the
//! image after the millisecond timestamp of its generation.  A reader loads one
//! generation at a time and answers typed point lookups against it.
//!
//! The library keeps to values in memory: it builds the image and names the
//! files, and leaves reading and writing them to its caller.

pub mod census;
pub mod codec;
pub mod error;
pub mod format;
pub mod hash;
pub mod key_type;
pub mod laws;
pub mod layout;
pub mod list;
pub mod placement;
pub mod reader;
pub mod table;
pub mod text;
pub mod writer;

pub use crate::error::AxonCacheError;
pub use crate::key_type::KeyType;
pub use crate::reader::{CacheReader, CacheReaderOptions};
pub use crate::writer::{CacheWriter, CacheWriterOptions, PublishStep};
