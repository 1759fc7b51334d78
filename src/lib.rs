//! Reader for a jimage container: a single file that packs many named
//! resources behind a hash index, read in place from a byte buffer.
pub mod format;
pub mod hash;
pub mod location;
pub mod image;

pub use format::{Header, Layout, ImageError};
pub use hash::{hash, hash_seeded};
pub use location::Entry;
pub use image::JImage;
